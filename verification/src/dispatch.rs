//! The command dispatcher: one received line in, one reply out, with the
//! store mutation pinned by a specification-level interpreter.
//!
//! A line is either a batch (`BATCH ` followed by up to three sub-commands
//! separated by semicolons, each executed on its own atomic slice of the
//! store) or a single command. Every reply is newline-terminated. The
//! listing command is answered from a snapshot of the store; its line order
//! is the store's own and deliberately left unspecified.

use vstd::prelude::*;
use vstd::slice::slice_to_vec;
use crate::ascii::{spec_trim, trim, starts_with};
use crate::decimal::{i_dec, u_dec, fmt_i64, fmt_u64, spec_parse_i64, parse_i64};
use crate::msgs::{msg_pong, msg_ok, msg_key_not_found, msg_invalid_arguments, msg_invalid_length,
    msg_invalid_expiration, msg_unknown_command, msg_too_many_commands, msg_no_expiration,
    reply_pong, reply_ok, reply_key_not_found, reply_invalid_arguments, reply_invalid_length,
    reply_invalid_expiration, reply_unknown_command, reply_too_many_commands, reply_no_expiration,
    tok_ping, tok_get, tok_set, tok_incr, tok_del, tok_list, is_tok_ping, is_tok_get, is_tok_set,
    is_tok_incr, is_tok_del, is_tok_list, batch_prefix, batch_prefix_bytes};
use crate::protocol::{tokens_of, tokenize, split_semi, split_semicolons, views_of, spec_ttl,
    parse_ttl};
use crate::store::{Store, EntryModel, Value, ValueModel, spec_live, sat_add64, clone_bytes,
    pairs_view};

verus! {

/// The model of the whole cache.
pub type StoreModel = Map<Seq<u8>, EntryModel>;

/// The value a `SET` stores: text that reads as a 64-bit signed integer is
/// kept as an integer, anything else as text.
pub open spec fn coerce_value(v: Seq<u8>) -> ValueModel {
    match spec_parse_i64(v) {
        Some(i) => ValueModel::Int(i),
        None => ValueModel::Text(v),
    }
}

/// The reply text of a stored value.
pub open spec fn value_bytes(v: ValueModel) -> Seq<u8> {
    match v {
        ValueModel::Int(i) => i_dec(i as int),
        ValueModel::Text(t) => t,
    }
}

/// Reply and new store of one `INCR`.
pub open spec fn sem_incr(m: StoreModel, k: Seq<u8>, ttl: Option<u64>, now: u64) -> (Seq<u8>,
    StoreModel) {
    let v = Store::spec_incr_val(m, k, now);
    (
        i_dec(v as int),
        m.insert(
            k,
            EntryModel { value: ValueModel::Int(v), expires_at: Store::spec_incr_exp(m, k, ttl, now) },
        ),
    )
}

/// Reply and new store of one tokenized command, the listing command aside.
///
/// Argument counts are checked first, then the 100-byte limit on keys and
/// values, then the TTL grammar; only a well-formed command reaches the
/// store. Inside a batch the listing command is not available and falls
/// under the unknown-command error; at top level it is answered by
/// `full_list_reply` instead of this function.
pub open spec fn sem_single(m: StoreModel, toks: Seq<Seq<u8>>, now: u64, in_batch: bool) -> (Seq<
    u8,
>, StoreModel) {
    if toks.len() == 0 {
        (msg_unknown_command(), m)
    } else if toks[0] == tok_ping() {
        if toks.len() == 1 {
            (msg_pong(), m)
        } else {
            (msg_invalid_arguments(), m)
        }
    } else if toks[0] == tok_get() {
        if toks.len() != 2 {
            (msg_invalid_arguments(), m)
        } else if toks[1].len() > 100 {
            (msg_invalid_length(), m)
        } else if spec_live(m, toks[1], now) {
            (value_bytes(m[toks[1]].value), m)
        } else if m.dom().contains(toks[1]) {
            (msg_key_not_found(), m.remove(toks[1]))
        } else {
            (msg_key_not_found(), m)
        }
    } else if toks[0] == tok_set() {
        if toks.len() < 3 || toks.len() > 4 {
            (msg_invalid_arguments(), m)
        } else if toks[1].len() > 100 || toks[2].len() > 100 {
            (msg_invalid_length(), m)
        } else if toks.len() == 4 {
            match spec_ttl(toks[3]) {
                Some(t) => (
                    msg_ok(),
                    m.insert(
                        toks[1],
                        EntryModel {
                            value: coerce_value(toks[2]),
                            expires_at: Some(sat_add64(now, t)),
                        },
                    ),
                ),
                None => (msg_invalid_expiration(), m),
            }
        } else {
            (
                msg_ok(),
                m.insert(toks[1], EntryModel { value: coerce_value(toks[2]), expires_at: None }),
            )
        }
    } else if toks[0] == tok_incr() {
        if toks.len() < 2 || toks.len() > 3 {
            (msg_invalid_arguments(), m)
        } else if toks[1].len() > 100 {
            (msg_invalid_length(), m)
        } else if toks.len() == 3 {
            match spec_ttl(toks[2]) {
                Some(t) => sem_incr(m, toks[1], Some(t), now),
                None => (msg_invalid_expiration(), m),
            }
        } else {
            sem_incr(m, toks[1], None, now)
        }
    } else if toks[0] == tok_del() {
        if toks.len() != 2 {
            (msg_invalid_arguments(), m)
        } else if toks[1].len() > 100 {
            (msg_invalid_length(), m)
        } else if spec_live(m, toks[1], now) {
            (msg_ok(), m.remove(toks[1]))
        } else {
            (msg_key_not_found(), m.remove(toks[1]))
        }
    } else if toks[0] == tok_list() {
        if toks.len() != 1 {
            (msg_invalid_arguments(), m)
        } else if in_batch {
            (msg_unknown_command(), m)
        } else {
            (Seq::empty(), m)
        }
    } else {
        (msg_unknown_command(), m)
    }
}

/// The replies of a batch, one per sub-command that is non-empty after
/// trimming, threading the store from left to right.
pub open spec fn sem_batch(m: StoreModel, subs: Seq<Seq<u8>>, now: u64) -> (Seq<Seq<u8>>,
    StoreModel)
    decreases subs.len(),
{
    if subs.len() == 0 {
        (Seq::empty(), m)
    } else {
        let t = spec_trim(subs[0]);
        if t.len() == 0 {
            sem_batch(m, subs.skip(1), now)
        } else {
            let first = sem_single(m, tokens_of(t), now, true);
            let rest = sem_batch(first.1, subs.skip(1), now);
            (seq![first.0] + rest.0, rest.1)
        }
    }
}

pub open spec fn join_rest(rs: Seq<Seq<u8>>) -> Seq<u8>
    decreases rs.len(),
{
    if rs.len() == 0 {
        Seq::empty()
    } else {
        seq![59u8] + rs[0] + join_rest(rs.skip(1))
    }
}

/// The batch replies joined by semicolons.
pub open spec fn join_semi(rs: Seq<Seq<u8>>) -> Seq<u8> {
    if rs.len() == 0 {
        Seq::empty()
    } else {
        rs[0] + join_rest(rs.skip(1))
    }
}

/// A line is a batch when it opens with the batch prefix.
pub open spec fn spec_is_batch(line: Seq<u8>) -> bool {
    line.len() >= 6 && line.subrange(0, 6) == batch_prefix()
}

/// A top-level listing request: exactly the one listing token.
pub open spec fn spec_line_is_list(line: Seq<u8>) -> bool {
    !spec_is_batch(line) && tokens_of(line) == seq![tok_list()]
}

/// Reply and new store of one received line, for every line that is not a
/// top-level listing request. A batch of more than three pieces is refused
/// whole, with nothing executed.
pub open spec fn sem_line(m: StoreModel, line: Seq<u8>, now: u64) -> (Seq<u8>, StoreModel) {
    if spec_is_batch(line) {
        let subs = split_semi(line.skip(6));
        if subs.len() > 3 {
            (msg_too_many_commands() + seq![10u8], m)
        } else {
            let b = sem_batch(m, subs, now);
            (join_semi(b.0) + seq![10u8], b.1)
        }
    } else {
        let s = sem_single(m, tokens_of(line), now, false);
        (s.0 + seq![10u8], s.1)
    }
}

/// The expiration column of a listing line.
pub open spec fn exp_bytes(e: Option<u64>) -> Seq<u8> {
    match e {
        Some(t) => u_dec(t as nat),
        None => msg_no_expiration(),
    }
}

/// One listing line: `key=value,expiry` and a newline.
pub open spec fn list_line(k: Seq<u8>, e: EntryModel) -> Seq<u8> {
    k + seq![61u8] + value_bytes(e.value) + seq![44u8] + exp_bytes(e.expires_at) + seq![10u8]
}

pub open spec fn list_body(entries: Seq<(Seq<u8>, EntryModel)>) -> Seq<u8>
    decreases entries.len(),
{
    if entries.len() == 0 {
        Seq::empty()
    } else {
        list_line(entries[0].0, entries[0].1) + list_body(entries.skip(1))
    }
}

/// The whole listing reply: one line per entry, or a single empty line for
/// an empty store.
pub open spec fn full_list_reply(entries: Seq<(Seq<u8>, EntryModel)>) -> Seq<u8> {
    if entries.len() == 0 {
        seq![10u8]
    } else {
        list_body(entries)
    }
}

/// Append a byte slice to a reply under construction.
pub fn append_bytes(dst: &mut Vec<u8>, src: &[u8])
    ensures
        final(dst)@ == old(dst)@ + src@,
{
    let n = src.len();
    let mut i: usize = 0;
    proof {
        assert(dst@ =~= old(dst)@ + src@.take(0));
    }
    while i < n
        invariant
            n == src@.len(),
            i <= n,
            dst@ == old(dst)@ + src@.take(i as int),
        decreases n - i,
    {
        proof {
            assert((old(dst)@ + src@.take(i as int)).push(src@[i as int]) =~= old(dst)@
                + src@.take(i + 1));
        }
        dst.push(src[i]);
        i = i + 1;
    }
    proof {
        assert(src@.take(n as int) =~= src@);
    }
}

/// Reply text of a value.
pub fn value_to_bytes(v: &Value) -> (r: Vec<u8>)
    ensures
        r@ == value_bytes(v@),
{
    match v {
        Value::Int(i) => fmt_i64(*i),
        Value::Text(t) => clone_bytes(t),
    }
}

/// The stored form of a `SET` argument.
pub fn coerce(v: &[u8]) -> (r: Value)
    ensures
        r@ == coerce_value(v@),
{
    match parse_i64(v) {
        Some(i) => Value::Int(i),
        None => Value::Text(slice_to_vec(v)),
    }
}

/// Execute one tokenized command against the store; the listing command is
/// excluded at top level (its caller answers it from a snapshot).
pub fn run_single(store: &mut Store, toks: &Vec<Vec<u8>>, now: u64, in_batch: bool) -> (r: Vec<u8>)
    requires
        old(store).inv(),
        !in_batch ==> views_of(toks@) != seq![tok_list()],
    ensures
        final(store).inv(),
        r@ == sem_single(old(store)@, views_of(toks@), now, in_batch).0,
        final(store)@ == sem_single(old(store)@, views_of(toks@), now, in_batch).1,
{
    let ghost tv = views_of(toks@);
    if toks.len() == 0 {
        return reply_unknown_command();
    }
    proof {
        assert(tv[0] == toks@[0]@);
    }
    let c: &[u8] = toks[0].as_slice();
    if is_tok_ping(c) {
        if toks.len() == 1 {
            reply_pong()
        } else {
            reply_invalid_arguments()
        }
    } else if is_tok_get(c) {
        if toks.len() != 2 {
            reply_invalid_arguments()
        } else {
            proof {
                assert(tv[1] == toks@[1]@);
            }
            let key: &[u8] = toks[1].as_slice();
            if key.len() > 100 {
                reply_invalid_length()
            } else {
                match store.get(key, now) {
                    Some(v) => value_to_bytes(&v),
                    None => reply_key_not_found(),
                }
            }
        }
    } else if is_tok_set(c) {
        if toks.len() < 3 || toks.len() > 4 {
            reply_invalid_arguments()
        } else {
            proof {
                assert(tv[1] == toks@[1]@);
                assert(tv[2] == toks@[2]@);
            }
            if toks[1].len() > 100 || toks[2].len() > 100 {
                reply_invalid_length()
            } else {
                let exp: Option<u64>;
                if toks.len() == 4 {
                    proof {
                        assert(tv[3] == toks@[3]@);
                    }
                    match parse_ttl(toks[3].as_slice()) {
                        Some(t) => {
                            exp = Some(now.saturating_add(t));
                        }
                        None => {
                            return reply_invalid_expiration();
                        }
                    }
                } else {
                    exp = None;
                }
                let key = clone_bytes(&toks[1]);
                let val = coerce(toks[2].as_slice());
                store.set(key, val, exp);
                reply_ok()
            }
        }
    } else if is_tok_incr(c) {
        if toks.len() < 2 || toks.len() > 3 {
            reply_invalid_arguments()
        } else {
            proof {
                assert(tv[1] == toks@[1]@);
            }
            if toks[1].len() > 100 {
                reply_invalid_length()
            } else {
                let ttl: Option<u64>;
                if toks.len() == 3 {
                    proof {
                        assert(tv[2] == toks@[2]@);
                    }
                    match parse_ttl(toks[2].as_slice()) {
                        Some(t) => {
                            ttl = Some(t);
                        }
                        None => {
                            return reply_invalid_expiration();
                        }
                    }
                } else {
                    ttl = None;
                }
                let v = store.incr(toks[1].as_slice(), ttl, now);
                fmt_i64(v)
            }
        }
    } else if is_tok_del(c) {
        if toks.len() != 2 {
            reply_invalid_arguments()
        } else {
            proof {
                assert(tv[1] == toks@[1]@);
            }
            if toks[1].len() > 100 {
                reply_invalid_length()
            } else {
                if store.delete(toks[1].as_slice(), now) {
                    reply_ok()
                } else {
                    reply_key_not_found()
                }
            }
        }
    } else if is_tok_list(c) {
        if toks.len() != 1 {
            reply_invalid_arguments()
        } else {
            proof {
                assert(tv =~= seq![tok_list()]);
            }
            reply_unknown_command()
        }
    } else {
        reply_unknown_command()
    }
}

/// The listing reply, from a snapshot of the store.
pub fn run_list(store: &Store) -> (r: Vec<u8>)
    requires
        store.inv(),
    ensures
        r@ == full_list_reply(store.entries_view()),
{
    let snap = store.list();
    let ghost ev = store.entries_view();
    proof {
        assert(ev.len() == pairs_view(snap@).len());
    }
    if snap.len() == 0 {
        let mut r: Vec<u8> = Vec::new();
        r.push(10);
        proof {
            assert(r@ =~= seq![10u8]);
        }
        return r;
    }
    let mut r: Vec<u8> = Vec::new();
    let n = snap.len();
    let mut i: usize = 0;
    proof {
        assert(ev.skip(0) =~= ev);
        assert(r@ =~= Seq::<u8>::empty() + Seq::<u8>::empty());
        assert(r@ + list_body(ev) =~= list_body(ev));
    }
    while i < n
        invariant
            store.inv(),
            n == snap@.len(),
            ev == store.entries_view(),
            pairs_view(snap@) == ev,
            i <= n,
            list_body(ev) == r@ + list_body(ev.skip(i as int)),
        decreases n - i,
    {
        let ghost rprev = r@;
        proof {
            assert(ev.skip(i as int)[0] == ev[i as int]);
            assert(ev.skip(i as int).skip(1) =~= ev.skip(i + 1));
            assert(ev[i as int] == (snap@[i as int].0@, snap@[i as int].1@));
        }
        append_bytes(&mut r, snap[i].0.as_slice());
        r.push(61);
        let vb = value_to_bytes(&snap[i].1.value);
        append_bytes(&mut r, vb.as_slice());
        r.push(44);
        match snap[i].1.expires_at {
            Some(t) => {
                let tb = fmt_u64(t);
                append_bytes(&mut r, tb.as_slice());
            }
            None => {
                let nb = reply_no_expiration();
                append_bytes(&mut r, nb.as_slice());
            }
        }
        r.push(10);
        proof {
            assert(r@ =~= rprev + list_line(ev[i as int].0, ev[i as int].1));
            assert(rprev + (list_line(ev[i as int].0, ev[i as int].1) + list_body(ev.skip(i + 1)))
                =~= (rprev + list_line(ev[i as int].0, ev[i as int].1)) + list_body(ev.skip(i + 1)));
        }
        i = i + 1;
    }
    proof {
        assert(ev.skip(n as int) =~= Seq::<(Seq<u8>, EntryModel)>::empty());
        assert(r@ + list_body(ev.skip(n as int)) =~= r@);
    }
    r
}

/// Process one received line: dispatch a single command or a batch and
/// return the newline-terminated reply. A top-level listing request leaves
/// the store untouched and is answered from its snapshot; every other line
/// follows the interpreter `sem_line`.
pub fn process_command(store: &mut Store, line: &[u8], now: u64) -> (reply: Vec<u8>)
    requires
        old(store).inv(),
    ensures
        final(store).inv(),
        spec_line_is_list(line@) ==> final(store)@ == old(store)@ && reply@ == full_list_reply(
            old(store).entries_view(),
        ),
        !spec_line_is_list(line@) ==> reply@ == sem_line(old(store)@, line@, now).0
            && final(store)@ == sem_line(old(store)@, line@, now).1,
{
    let bp = batch_prefix_bytes();
    if starts_with(line, bp.as_slice()) {
        let body: &[u8] = &line[6..line.len()];
        proof {
            assert(body@ =~= line@.skip(6));
        }
        let subs = split_semicolons(body);
        let ghost sv = split_semi(line@.skip(6));
        if subs.len() > 3 {
            let mut r = reply_too_many_commands();
            r.push(10);
            proof {
                assert(r@ =~= msg_too_many_commands() + seq![10u8]);
            }
            return r;
        }
        let ghost m0 = old(store)@;
        let mut results: Vec<Vec<u8>> = Vec::new();
        let n = subs.len();
        let mut i: usize = 0;
        proof {
            assert(sv.skip(0) =~= sv);
            assert(views_of(results@) =~= Seq::<Seq<u8>>::empty());
            assert(views_of(results@) + sem_batch(store@, sv, now).0 =~= sem_batch(
                store@,
                sv,
                now,
            ).0);
        }
        while i < n
            invariant
                store.inv(),
                n == subs@.len(),
                i <= n,
                views_of(subs@) == sv,
                sem_batch(m0, sv, now).0 == views_of(results@) + sem_batch(
                    store@,
                    sv.skip(i as int),
                    now,
                ).0,
                sem_batch(m0, sv, now).1 == sem_batch(store@, sv.skip(i as int), now).1,
            decreases n - i,
        {
            proof {
                assert(subs@[i as int]@ == sv[i as int]);
                assert(sv.skip(i as int)[0] == sv[i as int]);
                assert(sv.skip(i as int).skip(1) =~= sv.skip(i + 1));
            }
            let t = trim(subs[i].as_slice());
            if t.len() == 0 {
            } else {
                let toks = tokenize(t);
                let r1 = run_single(store, &toks, now, true);
                proof {
                    assert(views_of(results@.push(r1)) =~= views_of(results@) + seq![r1@]);
                    assert((views_of(results@) + seq![r1@]) + sem_batch(
                        store@,
                        sv.skip(i + 1),
                        now,
                    ).0 =~= views_of(results@) + (seq![r1@] + sem_batch(
                        store@,
                        sv.skip(i + 1),
                        now,
                    ).0));
                }
                results.push(r1);
            }
            i = i + 1;
        }
        proof {
            assert(sv.skip(n as int) =~= Seq::<Seq<u8>>::empty());
            assert(views_of(results@) + Seq::<Seq<u8>>::empty() =~= views_of(results@));
        }
        let ghost rv = views_of(results@);
        let rn = results.len();
        let mut reply: Vec<u8> = Vec::new();
        if rn > 0 {
            proof {
                assert(rv[0] == results@[0]@);
            }
            append_bytes(&mut reply, results[0].as_slice());
            let mut j: usize = 1;
            proof {
                assert(reply@ =~= Seq::<u8>::empty() + rv[0]);
                assert(reply@ =~= rv[0]);
            }
            while j < rn
                invariant
                    1 <= j <= rn,
                    rn == results@.len(),
                    views_of(results@) == rv,
                    join_semi(rv) == reply@ + join_rest(rv.skip(j as int)),
                decreases rn - j,
            {
                let ghost rprev = reply@;
                proof {
                    assert(rv.skip(j as int)[0] == rv[j as int]);
                    assert(rv[j as int] == results@[j as int]@);
                    assert(rv.skip(j as int).skip(1) =~= rv.skip(j + 1));
                }
                reply.push(59);
                append_bytes(&mut reply, results[j].as_slice());
                proof {
                    assert(reply@ =~= rprev + (seq![59u8] + rv[j as int]));
                    assert(rprev + (seq![59u8] + rv[j as int] + join_rest(rv.skip(j + 1))) =~= (
                    rprev + (seq![59u8] + rv[j as int])) + join_rest(rv.skip(j + 1)));
                }
                j = j + 1;
            }
            proof {
                assert(rv.skip(rn as int) =~= Seq::<Seq<u8>>::empty());
            }
        }
        let ghost joined = reply@;
        proof {
            assert(joined == join_semi(rv));
        }
        reply.push(10);
        proof {
            assert(reply@ =~= joined + seq![10u8]);
        }
        reply
    } else {
        let toks = tokenize(line);
        let is_list = if toks.len() == 1 {
            proof {
                assert(views_of(toks@)[0] == toks@[0]@);
            }
            is_tok_list(toks[0].as_slice())
        } else {
            false
        };
        if is_list {
            proof {
                assert(views_of(toks@) =~= seq![tok_list()]);
            }
            run_list(store)
        } else {
            proof {
                let tv = views_of(toks@);
                assert(tv.len() == toks@.len());
                if tv == seq![tok_list()] {
                    assert(tv.len() == seq![tok_list()].len());
                    assert(seq![tok_list()].len() == 1);
                    assert(toks@.len() == 1);
                    assert(tv[0] == toks@[0]@);
                    assert(tv[0] == seq![tok_list()][0]);
                    assert(toks@[0]@ == tok_list());
                    assert(false);
                }
            }
            let mut r = run_single(store, &toks, now, false);
            let ghost rr = r@;
            r.push(10);
            proof {
                assert(r@ =~= rr + seq![10u8]);
            }
            r
        }
    }
}

} // verus!
