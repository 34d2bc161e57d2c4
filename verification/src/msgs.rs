//! The fixed texts of the wire protocol: command words, replies and error
//! lines, each as a specification-level byte sequence beside an executable
//! builder or recogniser proved to match it.

use vstd::prelude::*;
use vstd::slice::slice_to_vec;
use crate::ascii::bytes_eq;

verus! {

/// `PONG`
pub open spec fn msg_pong() -> Seq<u8> {
    seq![80u8, 79u8, 78u8, 71u8]
}

pub fn reply_pong() -> (r: Vec<u8>)
    ensures
        r@ == msg_pong(),
{
    let a: [u8; 4] = [80u8, 79u8, 78u8, 71u8];
    let v = slice_to_vec(a.as_slice());
    proof {
        assert(v@ =~= msg_pong());
    }
    v
}

/// `OK`
pub open spec fn msg_ok() -> Seq<u8> {
    seq![79u8, 75u8]
}

pub fn reply_ok() -> (r: Vec<u8>)
    ensures
        r@ == msg_ok(),
{
    let a: [u8; 2] = [79u8, 75u8];
    let v = slice_to_vec(a.as_slice());
    proof {
        assert(v@ =~= msg_ok());
    }
    v
}

/// `ERROR key not found`
pub open spec fn msg_key_not_found() -> Seq<u8> {
    seq![69u8, 82u8, 82u8, 79u8, 82u8, 32u8, 107u8, 101u8, 121u8, 32u8, 110u8, 111u8, 116u8, 32u8, 102u8, 111u8, 117u8, 110u8, 100u8]
}

pub fn reply_key_not_found() -> (r: Vec<u8>)
    ensures
        r@ == msg_key_not_found(),
{
    let a: [u8; 19] = [69u8, 82u8, 82u8, 79u8, 82u8, 32u8, 107u8, 101u8, 121u8, 32u8, 110u8, 111u8, 116u8, 32u8, 102u8, 111u8, 117u8, 110u8, 100u8];
    let v = slice_to_vec(a.as_slice());
    proof {
        assert(v@ =~= msg_key_not_found());
    }
    v
}

/// `ERROR invalid arguments`
pub open spec fn msg_invalid_arguments() -> Seq<u8> {
    seq![69u8, 82u8, 82u8, 79u8, 82u8, 32u8, 105u8, 110u8, 118u8, 97u8, 108u8, 105u8, 100u8, 32u8, 97u8, 114u8, 103u8, 117u8, 109u8, 101u8, 110u8, 116u8, 115u8]
}

pub fn reply_invalid_arguments() -> (r: Vec<u8>)
    ensures
        r@ == msg_invalid_arguments(),
{
    let a: [u8; 23] = [69u8, 82u8, 82u8, 79u8, 82u8, 32u8, 105u8, 110u8, 118u8, 97u8, 108u8, 105u8, 100u8, 32u8, 97u8, 114u8, 103u8, 117u8, 109u8, 101u8, 110u8, 116u8, 115u8];
    let v = slice_to_vec(a.as_slice());
    proof {
        assert(v@ =~= msg_invalid_arguments());
    }
    v
}

/// `ERROR invalid length`
pub open spec fn msg_invalid_length() -> Seq<u8> {
    seq![69u8, 82u8, 82u8, 79u8, 82u8, 32u8, 105u8, 110u8, 118u8, 97u8, 108u8, 105u8, 100u8, 32u8, 108u8, 101u8, 110u8, 103u8, 116u8, 104u8]
}

pub fn reply_invalid_length() -> (r: Vec<u8>)
    ensures
        r@ == msg_invalid_length(),
{
    let a: [u8; 20] = [69u8, 82u8, 82u8, 79u8, 82u8, 32u8, 105u8, 110u8, 118u8, 97u8, 108u8, 105u8, 100u8, 32u8, 108u8, 101u8, 110u8, 103u8, 116u8, 104u8];
    let v = slice_to_vec(a.as_slice());
    proof {
        assert(v@ =~= msg_invalid_length());
    }
    v
}

/// `ERROR invalid expiration`
pub open spec fn msg_invalid_expiration() -> Seq<u8> {
    seq![69u8, 82u8, 82u8, 79u8, 82u8, 32u8, 105u8, 110u8, 118u8, 97u8, 108u8, 105u8, 100u8, 32u8, 101u8, 120u8, 112u8, 105u8, 114u8, 97u8, 116u8, 105u8, 111u8, 110u8]
}

pub fn reply_invalid_expiration() -> (r: Vec<u8>)
    ensures
        r@ == msg_invalid_expiration(),
{
    let a: [u8; 24] = [69u8, 82u8, 82u8, 79u8, 82u8, 32u8, 105u8, 110u8, 118u8, 97u8, 108u8, 105u8, 100u8, 32u8, 101u8, 120u8, 112u8, 105u8, 114u8, 97u8, 116u8, 105u8, 111u8, 110u8];
    let v = slice_to_vec(a.as_slice());
    proof {
        assert(v@ =~= msg_invalid_expiration());
    }
    v
}

/// `ERROR unknown command`
pub open spec fn msg_unknown_command() -> Seq<u8> {
    seq![69u8, 82u8, 82u8, 79u8, 82u8, 32u8, 117u8, 110u8, 107u8, 110u8, 111u8, 119u8, 110u8, 32u8, 99u8, 111u8, 109u8, 109u8, 97u8, 110u8, 100u8]
}

pub fn reply_unknown_command() -> (r: Vec<u8>)
    ensures
        r@ == msg_unknown_command(),
{
    let a: [u8; 21] = [69u8, 82u8, 82u8, 79u8, 82u8, 32u8, 117u8, 110u8, 107u8, 110u8, 111u8, 119u8, 110u8, 32u8, 99u8, 111u8, 109u8, 109u8, 97u8, 110u8, 100u8];
    let v = slice_to_vec(a.as_slice());
    proof {
        assert(v@ =~= msg_unknown_command());
    }
    v
}

/// `ERROR too many commands`
pub open spec fn msg_too_many_commands() -> Seq<u8> {
    seq![69u8, 82u8, 82u8, 79u8, 82u8, 32u8, 116u8, 111u8, 111u8, 32u8, 109u8, 97u8, 110u8, 121u8, 32u8, 99u8, 111u8, 109u8, 109u8, 97u8, 110u8, 100u8, 115u8]
}

pub fn reply_too_many_commands() -> (r: Vec<u8>)
    ensures
        r@ == msg_too_many_commands(),
{
    let a: [u8; 23] = [69u8, 82u8, 82u8, 79u8, 82u8, 32u8, 116u8, 111u8, 111u8, 32u8, 109u8, 97u8, 110u8, 121u8, 32u8, 99u8, 111u8, 109u8, 109u8, 97u8, 110u8, 100u8, 115u8];
    let v = slice_to_vec(a.as_slice());
    proof {
        assert(v@ =~= msg_too_many_commands());
    }
    v
}

/// `no-expiration`
pub open spec fn msg_no_expiration() -> Seq<u8> {
    seq![110u8, 111u8, 45u8, 101u8, 120u8, 112u8, 105u8, 114u8, 97u8, 116u8, 105u8, 111u8, 110u8]
}

pub fn reply_no_expiration() -> (r: Vec<u8>)
    ensures
        r@ == msg_no_expiration(),
{
    let a: [u8; 13] = [110u8, 111u8, 45u8, 101u8, 120u8, 112u8, 105u8, 114u8, 97u8, 116u8, 105u8, 111u8, 110u8];
    let v = slice_to_vec(a.as_slice());
    proof {
        assert(v@ =~= msg_no_expiration());
    }
    v
}

/// The command word `PING`.
pub open spec fn tok_ping() -> Seq<u8> {
    seq![80u8, 73u8, 78u8, 71u8]
}

pub fn is_tok_ping(t: &[u8]) -> (r: bool)
    ensures
        r == (t@ == tok_ping()),
{
    let a: [u8; 4] = [80u8, 73u8, 78u8, 71u8];
    proof {
        assert(a@ =~= tok_ping());
    }
    bytes_eq(t, a.as_slice())
}

/// The command word `GET`.
pub open spec fn tok_get() -> Seq<u8> {
    seq![71u8, 69u8, 84u8]
}

pub fn is_tok_get(t: &[u8]) -> (r: bool)
    ensures
        r == (t@ == tok_get()),
{
    let a: [u8; 3] = [71u8, 69u8, 84u8];
    proof {
        assert(a@ =~= tok_get());
    }
    bytes_eq(t, a.as_slice())
}

/// The command word `SET`.
pub open spec fn tok_set() -> Seq<u8> {
    seq![83u8, 69u8, 84u8]
}

pub fn is_tok_set(t: &[u8]) -> (r: bool)
    ensures
        r == (t@ == tok_set()),
{
    let a: [u8; 3] = [83u8, 69u8, 84u8];
    proof {
        assert(a@ =~= tok_set());
    }
    bytes_eq(t, a.as_slice())
}

/// The command word `INCR`.
pub open spec fn tok_incr() -> Seq<u8> {
    seq![73u8, 78u8, 67u8, 82u8]
}

pub fn is_tok_incr(t: &[u8]) -> (r: bool)
    ensures
        r == (t@ == tok_incr()),
{
    let a: [u8; 4] = [73u8, 78u8, 67u8, 82u8];
    proof {
        assert(a@ =~= tok_incr());
    }
    bytes_eq(t, a.as_slice())
}

/// The command word `DEL`.
pub open spec fn tok_del() -> Seq<u8> {
    seq![68u8, 69u8, 76u8]
}

pub fn is_tok_del(t: &[u8]) -> (r: bool)
    ensures
        r == (t@ == tok_del()),
{
    let a: [u8; 3] = [68u8, 69u8, 76u8];
    proof {
        assert(a@ =~= tok_del());
    }
    bytes_eq(t, a.as_slice())
}

/// The command word `LIST`.
pub open spec fn tok_list() -> Seq<u8> {
    seq![76u8, 73u8, 83u8, 84u8]
}

pub fn is_tok_list(t: &[u8]) -> (r: bool)
    ensures
        r == (t@ == tok_list()),
{
    let a: [u8; 4] = [76u8, 73u8, 83u8, 84u8];
    proof {
        assert(a@ =~= tok_list());
    }
    bytes_eq(t, a.as_slice())
}

/// The prefix that marks a batch line: the word `BATCH` and one space.
pub open spec fn batch_prefix() -> Seq<u8> {
    seq![66u8, 65u8, 84u8, 67u8, 72u8, 32u8]
}

pub fn batch_prefix_bytes() -> (r: Vec<u8>)
    ensures
        r@ == batch_prefix(),
{
    let a: [u8; 6] = [66u8, 65u8, 84u8, 67u8, 72u8, 32u8];
    let v = slice_to_vec(a.as_slice());
    proof {
        assert(v@ =~= batch_prefix());
    }
    v
}

/// The unsolicited `UPONG\n` line.
pub open spec fn msg_heartbeat() -> Seq<u8> {
    seq![85u8, 80u8, 79u8, 78u8, 71u8, 10u8]
}

pub fn line_heartbeat() -> (r: Vec<u8>)
    ensures
        r@ == msg_heartbeat(),
{
    let a: [u8; 6] = [85u8, 80u8, 79u8, 78u8, 71u8, 10u8];
    let v = slice_to_vec(a.as_slice());
    proof {
        assert(v@ =~= msg_heartbeat());
    }
    v
}

/// The unsolicited `TERM\n` line.
pub open spec fn msg_term() -> Seq<u8> {
    seq![84u8, 69u8, 82u8, 77u8, 10u8]
}

pub fn line_term() -> (r: Vec<u8>)
    ensures
        r@ == msg_term(),
{
    let a: [u8; 5] = [84u8, 69u8, 82u8, 77u8, 10u8];
    let v = slice_to_vec(a.as_slice());
    proof {
        assert(v@ =~= msg_term());
    }
    v
}

} // verus!
