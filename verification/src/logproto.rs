//! The logging sink's own wire protocol: parsing one received line into a
//! record, choosing the queue a record is routed to, and the exact line
//! written to the day's file. The sockets, channels and files around this
//! live with the caller.

use vstd::prelude::*;
use vstd::slice::slice_to_vec;
use crate::decimal::{spec_parse_u64, parse_u64, dec_pad4, fmt_u64_pad4};
use crate::dispatch::append_bytes;
use crate::logclient::{tag_actv, tag_erro};

verus! {

/// One parsed log submission: a four-byte level tag, a thirty-two byte
/// host column, a four-byte code, and the message with its declared
/// length.
pub struct Record {
    pub lvl: Vec<u8>,
    pub host: Vec<u8>,
    pub code: Vec<u8>,
    pub len: u16,
    pub msg: Vec<u8>,
}

/// Mathematical model of a `Record`.
pub struct RecordModel {
    pub lvl: Seq<u8>,
    pub host: Seq<u8>,
    pub code: Seq<u8>,
    pub len: u16,
    pub msg: Seq<u8>,
}

impl View for Record {
    type V = RecordModel;

    open spec fn view(&self) -> RecordModel {
        RecordModel {
            lvl: self.lvl@,
            host: self.host@,
            code: self.code@,
            len: self.len,
            msg: self.msg@,
        }
    }
}

/// Why a line was refused: malformed, or declaring an oversized message.
#[derive(Clone, Copy, PartialEq, Eq, Structural, Debug)]
pub enum ParseError {
    Invalid,
    Oversize,
}

/// The index of the queue a record is routed to by its level tag:
/// activity, errors, and everything else.
pub open spec fn spec_queue_of(lvl: Seq<u8>) -> int {
    if lvl == tag_actv() {
        0
    } else if lvl == tag_erro() {
        1
    } else {
        2
    }
}

pub fn get_queue(lvl: &[u8; 4]) -> (r: usize)
    ensures
        r == spec_queue_of(lvl@),
{
    if lvl[0] == 65 && lvl[1] == 67 && lvl[2] == 84 && lvl[3] == 86 {
        proof {
            assert(lvl@ =~= tag_actv());
        }
        0
    } else if lvl[0] == 69 && lvl[1] == 82 && lvl[2] == 82 && lvl[3] == 79 {
        proof {
            assert(lvl@ =~= tag_erro());
        }
        1
    } else {
        proof {
            if lvl@ == tag_actv() {
                assert(lvl@[0] == 65 && lvl@[1] == 67 && lvl@[2] == 84 && lvl@[3] == 86);
            }
            if lvl@ == tag_erro() {
                assert(lvl@[0] == 69 && lvl@[1] == 82 && lvl@[2] == 82 && lvl@[3] == 79);
            }
        }
        2
    }
}

/// What one received line parses to. The line carries fixed columns —
/// level at 0, host at 5, code at 38, a four-digit length at 43, the
/// message from 49 — and must end in a newline; a declared length over
/// 4096 is refused as oversized, and any other shape violation as
/// invalid.
pub open spec fn spec_parse_record(line: Seq<u8>) -> Result<RecordModel, ParseError> {
    if line.len() < 50 || line.last() != 10 {
        Err(ParseError::Invalid)
    } else {
        match spec_parse_u64(line.subrange(43, 47)) {
            None => Err(ParseError::Invalid),
            Some(v) => if v > 65535 {
                Err(ParseError::Invalid)
            } else if v > 4096 {
                Err(ParseError::Oversize)
            } else if line.len() != 50 + v {
                Err(ParseError::Invalid)
            } else {
                Ok(
                    RecordModel {
                        lvl: line.subrange(0, 4),
                        host: line.subrange(5, 37),
                        code: line.subrange(38, 42),
                        len: v as u16,
                        msg: line.subrange(49, 49 + v),
                    },
                )
            },
        }
    }
}

/// Parse one received line into a record.
pub fn parse_line(line: &[u8]) -> (r: Result<Record, ParseError>)
    ensures
        match r {
            Ok(rec) => spec_parse_record(line@) == Ok::<RecordModel, ParseError>(rec@),
            Err(e) => spec_parse_record(line@) == Err::<RecordModel, ParseError>(e),
        },
{
    let n = line.len();
    if n < 50 || line[n - 1] != 10 {
        return Err(ParseError::Invalid);
    }
    let len_field: &[u8] = &line[43..47];
    proof {
        assert(len_field@ =~= line@.subrange(43, 47));
    }
    let v = match parse_u64(len_field) {
        Some(v) => v,
        None => {
            return Err(ParseError::Invalid);
        }
    };
    if v > 65535 {
        return Err(ParseError::Invalid);
    }
    if v > 4096 {
        return Err(ParseError::Oversize);
    }
    if n as u64 != 50 + v {
        return Err(ParseError::Invalid);
    }
    let lvl_s: &[u8] = &line[0..4];
    let host_s: &[u8] = &line[5..37];
    let code_s: &[u8] = &line[38..42];
    let msg_end = 49 + (v as usize);
    let msg_s: &[u8] = &line[49..msg_end];
    proof {
        assert(lvl_s@ =~= line@.subrange(0, 4));
        assert(host_s@ =~= line@.subrange(5, 37));
        assert(code_s@ =~= line@.subrange(38, 42));
        assert(msg_s@ =~= line@.subrange(49, 49 + v));
    }
    Ok(
        Record {
            lvl: slice_to_vec(lvl_s),
            host: slice_to_vec(host_s),
            code: slice_to_vec(code_s),
            len: v as u16,
            msg: slice_to_vec(msg_s),
        },
    )
}

/// The line the writer appends to the day's file for one record: the
/// receive timestamp, the fixed columns, the zero-padded length, and the
/// message.
pub open spec fn spec_record_line(rec: RecordModel, recv_ts: Seq<u8>) -> Seq<u8> {
    recv_ts + seq![32u8] + rec.lvl + seq![32u8] + rec.host + seq![32u8] + rec.code + seq![32u8]
        + dec_pad4(rec.len as nat) + seq![58u8, 32u8] + rec.msg + seq![10u8]
}

pub fn format_record_line(rec: &Record, recv_ts: &[u8]) -> (r: Vec<u8>)
    ensures
        r@ == spec_record_line(rec@, recv_ts@),
{
    let mut out: Vec<u8> = Vec::new();
    append_bytes(&mut out, recv_ts);
    out.push(32);
    append_bytes(&mut out, rec.lvl.as_slice());
    out.push(32);
    append_bytes(&mut out, rec.host.as_slice());
    out.push(32);
    append_bytes(&mut out, rec.code.as_slice());
    out.push(32);
    let lenf = fmt_u64_pad4(rec.len as u64);
    append_bytes(&mut out, lenf.as_slice());
    out.push(58);
    out.push(32);
    append_bytes(&mut out, rec.msg.as_slice());
    out.push(10);
    proof {
        assert(out@ =~= spec_record_line(rec@, recv_ts@));
    }
    out
}

} // verus!
