//! The client side of the cache protocol: building request lines and
//! classifying what the server sends back. The connection and its reads
//! and writes live with the caller; every decision it takes about bytes is
//! here.

use vstd::prelude::*;
use crate::ascii::{bytes_eq, spec_contains, contains_bytes};
use crate::dispatch::append_bytes;

verus! {

/// `ERROR`, the word every failure reply opens with.
pub open spec fn word_error_prefix() -> Seq<u8> {
    seq![69u8, 82u8, 82u8, 79u8, 82u8]
}

/// `key not found`, the text of the miss reply.
pub open spec fn words_key_not_found() -> Seq<u8> {
    seq![
        107u8,
        101u8,
        121u8,
        32u8,
        110u8,
        111u8,
        116u8,
        32u8,
        102u8,
        111u8,
        117u8,
        110u8,
        100u8,
    ]
}

/// A request line: the command word and its arguments, space-separated,
/// with the final newline.
pub open spec fn spec_request(parts: Seq<Seq<u8>>) -> Seq<u8>
    decreases parts.len(),
{
    if parts.len() == 0 {
        seq![10u8]
    } else if parts.len() == 1 {
        parts[0] + seq![10u8]
    } else {
        parts[0] + seq![32u8] + spec_request(parts.skip(1))
    }
}

/// Build a request line from its parts.
pub fn build_request(parts: &Vec<Vec<u8>>) -> (r: Vec<u8>)
    ensures
        r@ == spec_request(crate::protocol::views_of(parts@)),
{
    let ghost pv = crate::protocol::views_of(parts@);
    let mut out: Vec<u8> = Vec::new();
    let n = parts.len();
    let mut i: usize = 0;
    proof {
        assert(pv.skip(0) =~= pv);
        assert(out@ + spec_request(pv) =~= spec_request(pv));
    }
    while i < n
        invariant
            n == parts@.len(),
            i <= n,
            crate::protocol::views_of(parts@) == pv,
            spec_request(pv) == out@ + spec_request(pv.skip(i as int)),
        decreases n - i,
    {
        let ghost oprev = out@;
        proof {
            assert(pv[i as int] == parts@[i as int]@);
            assert(pv.skip(i as int)[0] == pv[i as int]);
            assert(pv.skip(i as int).skip(1) =~= pv.skip(i + 1));
        }
        append_bytes(&mut out, parts[i].as_slice());
        if i + 1 < n {
            out.push(32);
            proof {
                assert(out@ =~= oprev + (pv[i as int] + seq![32u8]));
                assert(oprev + (pv[i as int] + seq![32u8]) + spec_request(pv.skip(i + 1)) =~= oprev
                    + (pv[i as int] + seq![32u8] + spec_request(pv.skip(i + 1))));
            }
        } else {
            proof {
                assert(pv.skip(i + 1).len() == 0);
            }
        }
        i = i + 1;
    }
    if n == 0 {
        out.push(10);
        proof {
            assert(out@ =~= seq![10u8]);
        }
    } else {
        let ghost oprev = out@;
        out.push(10);
        proof {
            assert(pv.skip(n - 1).len() == 1);
            assert(pv.skip(n - 1)[0] == pv[n - 1]);
            assert(spec_request(pv.skip(n - 1)) =~= pv[n - 1] + seq![10u8]);
            assert(out@ =~= oprev + seq![10u8]);
        }
    }
    out
}

/// What an unsolicited or solicited server line is to a client: the
/// heartbeat to discard, the termination notice, or a real reply.
pub enum ServerLine {
    Heartbeat,
    Term,
    Reply,
}

/// `UPONG` (once trimmed), the heartbeat a client silently discards.
pub open spec fn word_upong() -> Seq<u8> {
    seq![85u8, 80u8, 79u8, 78u8, 71u8]
}

/// `TERM` (once trimmed), the shutdown notice.
pub open spec fn word_term() -> Seq<u8> {
    seq![84u8, 69u8, 82u8, 77u8]
}

/// Classify one trimmed line from the server.
pub fn classify_server_line(line: &[u8]) -> (r: ServerLine)
    ensures
        line@ == word_upong() ==> r is Heartbeat,
        line@ == word_term() ==> r is Term,
        line@ != word_upong() && line@ != word_term() ==> r is Reply,
{
    let upong: [u8; 5] = [85u8, 80u8, 79u8, 78u8, 71u8];
    let term: [u8; 4] = [84u8, 69u8, 82u8, 77u8];
    proof {
        assert(upong@ =~= word_upong());
        assert(term@ =~= word_term());
    }
    if bytes_eq(line, upong.as_slice()) {
        ServerLine::Heartbeat
    } else if bytes_eq(line, term.as_slice()) {
        ServerLine::Term
    } else {
        ServerLine::Reply
    }
}

/// A failure reply: it opens with the word `ERROR`.
pub fn is_error_reply(line: &[u8]) -> (r: bool)
    ensures
        r == (line@.len() >= 5 && line@.subrange(0, 5) == word_error_prefix()),
{
    let e: [u8; 5] = [69u8, 82u8, 82u8, 79u8, 82u8];
    proof {
        assert(e@ =~= word_error_prefix());
    }
    crate::ascii::starts_with(line, e.as_slice())
}

/// A miss reply: it mentions `key not found`, as the client treats any
/// such failure as an absent key rather than a fault.
pub fn is_not_found_reply(line: &[u8]) -> (r: bool)
    ensures
        r == spec_contains(line@, words_key_not_found()),
{
    let w: [u8; 13] = [107u8, 101u8, 121u8, 32u8, 110u8, 111u8, 116u8, 32u8, 102u8, 111u8, 117u8,
        110u8, 100u8];
    proof {
        assert(w@ =~= words_key_not_found());
    }
    contains_bytes(line, w.as_slice())
}

} // verus!
