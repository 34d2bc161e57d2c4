//! The cache's laws, stated over the command interpreter and proved once
//! for all stores, keys and clock readings.

use vstd::prelude::*;
use crate::decimal::{i_dec, u_dec, is_digits, dec_val, spec_is_digit, lemma_u_dec_digits,
    spec_parse_i64};
use crate::dispatch::{StoreModel, sem_single, sem_line, coerce_value, value_bytes, spec_is_batch};
use crate::msgs::{msg_ok, msg_key_not_found, msg_invalid_length, msg_too_many_commands, tok_get,
    tok_set, tok_incr, tok_del};
use crate::protocol::{spec_ttl, split_semi};
use crate::store::{EntryModel, Store, ValueModel, sat_add64, spec_expired, spec_live};

verus! {

/// After `SET k v` (no TTL), `GET k` returns exactly the stored value at
/// any later clock reading, and leaves the store as the `SET` left it.
pub proof fn law_set_then_get(m: StoreModel, k: Seq<u8>, v: Seq<u8>, now1: u64, now2: u64)
    requires
        k.len() <= 100,
        v.len() <= 100,
    ensures
        ({
            let set_toks = seq![tok_set(), k, v];
            let get_toks = seq![tok_get(), k];
            let (r1, m1) = sem_single(m, set_toks, now1, false);
            let (r2, m2) = sem_single(m1, get_toks, now2, false);
            r1 == msg_ok() && r2 == value_bytes(coerce_value(v)) && m2 == m1
        }),
{
    let set_toks = seq![tok_set(), k, v];
    let get_toks = seq![tok_get(), k];
    assert(set_toks[0] == tok_set() && set_toks[1] == k && set_toks[2] == v);
    assert(get_toks[0] == tok_get() && get_toks[1] == k);
    let (r1, m1) = sem_single(m, set_toks, now1, false);
    assert(m1 == m.insert(k, EntryModel { value: coerce_value(v), expires_at: None }));
    assert(spec_live(m1, k, now2));
}

/// Commands whose key is another key leave this key's entry untouched:
/// with the frame law, `law_set_then_get` holds until `k` itself is
/// deleted, overwritten or expired.
pub proof fn law_frame(m: StoreModel, toks: Seq<Seq<u8>>, now: u64, in_batch: bool, k: Seq<u8>)
    requires
        toks.len() < 2 || toks[1] != k,
    ensures
        ({
            let m2 = sem_single(m, toks, now, in_batch).1;
            (m2.dom().contains(k) <==> m.dom().contains(k)) && (m.dom().contains(k) ==> m2[k]
                == m[k])
        }),
{
}

/// `INCR` on an absent key answers `1`, then `2`, then `3`: each call adds
/// exactly one.
pub proof fn law_incr_counts_up(m: StoreModel, k: Seq<u8>, now: u64)
    requires
        !m.dom().contains(k),
        k.len() <= 100,
    ensures
        ({
            let toks = seq![tok_incr(), k];
            let (r1, m1) = sem_single(m, toks, now, false);
            let (r2, m2) = sem_single(m1, toks, now, false);
            let (r3, m3) = sem_single(m2, toks, now, false);
            r1 == i_dec(1) && r2 == i_dec(2) && r3 == i_dec(3) && m3[k].value == ValueModel::Int(
                3,
            )
        }),
{
    let toks = seq![tok_incr(), k];
    assert(toks[0] == tok_incr() && toks[1] == k);
    let (r1, m1) = sem_single(m, toks, now, false);
    assert(m1[k] == EntryModel { value: ValueModel::Int(1), expires_at: None::<u64> });
    assert(spec_live(m1, k, now));
    let (r2, m2) = sem_single(m1, toks, now, false);
    assert(m2[k] == EntryModel { value: ValueModel::Int(2), expires_at: None::<u64> });
    assert(spec_live(m2, k, now));
}

/// The store after `n` increments of an absent key, all with the same
/// clock reading and no TTL argument.
pub open spec fn incr_n(m: StoreModel, k: Seq<u8>, now: u64, n: nat) -> StoreModel
    decreases n,
{
    if n == 0 {
        m
    } else {
        sem_single(incr_n(m, k, now, (n - 1) as nat), seq![tok_incr(), k], now, false).1
    }
}

/// No increment is lost: `n` increments of a fresh key, executed one after
/// the other in any serialization (each one is atomic at the store), leave
/// the key at exactly `n`, and the `n`-th reply is `n`.
pub proof fn law_incr_n_times(m: StoreModel, k: Seq<u8>, now: u64, n: nat)
    requires
        !m.dom().contains(k),
        k.len() <= 100,
        1 <= n <= i64::MAX,
    ensures
        ({
            let mn = incr_n(m, k, now, n);
            mn.dom().contains(k) && mn[k].value == ValueModel::Int(n as i64)
                && mn[k].expires_at == None::<u64> && sem_single(
                incr_n(m, k, now, (n - 1) as nat),
                seq![tok_incr(), k],
                now,
                false,
            ).0 == i_dec(n as int)
        }),
    decreases n,
{
    let toks = seq![tok_incr(), k];
    assert(toks[0] == tok_incr() && toks[1] == k);
    if n == 1 {
        assert(incr_n(m, k, now, 0) == m);
    } else {
        law_incr_n_times(m, k, now, (n - 1) as nat);
        let prev = incr_n(m, k, now, (n - 1) as nat);
        assert(spec_live(prev, k, now));
    }
}

/// `INCR` on a live text entry resets it to `1`, whatever the text held.
pub proof fn law_incr_resets_text(m: StoreModel, k: Seq<u8>, now: u64)
    requires
        k.len() <= 100,
        spec_live(m, k, now),
        m[k].value is Text,
    ensures
        ({
            let (r, m2) = sem_single(m, seq![tok_incr(), k], now, false);
            r == i_dec(1) && m2[k].value == ValueModel::Int(1)
        }),
{
    let toks = seq![tok_incr(), k];
    assert(toks[0] == tok_incr() && toks[1] == k);
}

/// The TTL law: after `SET k v <ttl>`, a `GET` strictly before the expiry
/// instant returns the value and leaves the store unchanged; a `GET` at or
/// after it reports the key missing and evicts the entry.
pub proof fn law_ttl(
    m: StoreModel,
    k: Seq<u8>,
    v: Seq<u8>,
    ttlt: Seq<u8>,
    d: u64,
    now: u64,
    t_early: u64,
    t_late: u64,
)
    requires
        k.len() <= 100,
        v.len() <= 100,
        spec_ttl(ttlt) == Some(d),
        t_early < sat_add64(now, d),
        t_late >= sat_add64(now, d),
    ensures
        ({
            let (r0, m1) = sem_single(m, seq![tok_set(), k, v, ttlt], now, false);
            let (r1, m1a) = sem_single(m1, seq![tok_get(), k], t_early, false);
            let (r2, m2) = sem_single(m1, seq![tok_get(), k], t_late, false);
            r0 == msg_ok() && r1 == value_bytes(coerce_value(v)) && m1a == m1 && r2
                == msg_key_not_found() && m2 == m1.remove(k)
        }),
{
    let set_toks = seq![tok_set(), k, v, ttlt];
    let get_toks = seq![tok_get(), k];
    assert(set_toks[0] == tok_set() && set_toks[1] == k && set_toks[2] == v && set_toks[3]
        == ttlt);
    assert(get_toks[0] == tok_get() && get_toks[1] == k);
    let (r0, m1) = sem_single(m, set_toks, now, false);
    assert(m1 == m.insert(
        k,
        EntryModel { value: coerce_value(v), expires_at: Some(sat_add64(now, d)) },
    ));
    assert(spec_live(m1, k, t_early));
    assert(!spec_live(m1, k, t_late));
}

/// `INCR k <ttl>` on a fresh key stamps the expiry at `now + ttl`; a later
/// `INCR k` without a TTL argument, before that instant, counts up but
/// leaves the expiry exactly where the first call put it.
pub proof fn law_incr_keeps_ttl(
    m: StoreModel,
    k: Seq<u8>,
    ttlt: Seq<u8>,
    d: u64,
    now: u64,
    t_next: u64,
)
    requires
        !m.dom().contains(k),
        k.len() <= 100,
        spec_ttl(ttlt) == Some(d),
        t_next < sat_add64(now, d),
    ensures
        ({
            let (r1, m1) = sem_single(m, seq![tok_incr(), k, ttlt], now, false);
            let (r2, m2) = sem_single(m1, seq![tok_incr(), k], t_next, false);
            r1 == i_dec(1) && m1[k].expires_at == Some(sat_add64(now, d)) && r2 == i_dec(2)
                && m2[k].expires_at == Some(sat_add64(now, d))
        }),
{
    let toks1 = seq![tok_incr(), k, ttlt];
    let toks2 = seq![tok_incr(), k];
    assert(toks1[0] == tok_incr() && toks1[1] == k && toks1[2] == ttlt);
    assert(toks2[0] == tok_incr() && toks2[1] == k);
    let (r1, m1) = sem_single(m, toks1, now, false);
    assert(m1[k] == EntryModel {
        value: ValueModel::Int(1),
        expires_at: Some(sat_add64(now, d)),
    });
    assert(spec_live(m1, k, t_next));
}

/// `DEL` is not idempotent in its reply: after a `SET`, the first `DEL`
/// answers `OK` and the second reports the key missing.
pub proof fn law_del_twice(m: StoreModel, k: Seq<u8>, v: Seq<u8>, now: u64)
    requires
        k.len() <= 100,
        v.len() <= 100,
    ensures
        ({
            let (_, m1) = sem_single(m, seq![tok_set(), k, v], now, false);
            let (r1, m2) = sem_single(m1, seq![tok_del(), k], now, false);
            let (r2, m3) = sem_single(m2, seq![tok_del(), k], now, false);
            r1 == msg_ok() && r2 == msg_key_not_found() && !m3.dom().contains(k)
        }),
{
    let set_toks = seq![tok_set(), k, v];
    let del_toks = seq![tok_del(), k];
    assert(set_toks[0] == tok_set() && set_toks[1] == k && set_toks[2] == v);
    assert(del_toks[0] == tok_del() && del_toks[1] == k);
    let (_, m1) = sem_single(m, set_toks, now, false);
    assert(spec_live(m1, k, now));
    let (r1, m2) = sem_single(m1, del_toks, now, false);
    assert(!m2.dom().contains(k));
}

/// Replies read back as what was stored: the decimal text of any 64-bit
/// integer, as a counter reply or listing column shows it, coerces back to
/// exactly that integer when sent as a `SET` value.
pub proof fn law_decimal_round_trip(v: i64)
    ensures
        coerce_value(i_dec(v as int)) == ValueModel::Int(v),
{
    if v >= 0 {
        let s = u_dec(v as nat);
        lemma_u_dec_digits(v as nat);
        assert(spec_is_digit(s[0]));
        assert(s[0] != 43 && s[0] != 45);
        assert(spec_parse_i64(s) == Some(v));
    } else {
        let d = u_dec((-(v as int)) as nat);
        let s = i_dec(v as int);
        lemma_u_dec_digits((-(v as int)) as nat);
        assert(s[0] == 45);
        assert(s.skip(1) =~= d);
        assert(dec_val(s.skip(1)) == -(v as int));
        assert(is_digits(s.skip(1)));
        assert(spec_parse_i64(s) == Some(v));
    }
}

/// A batch line of more than three semicolon-separated pieces is refused
/// whole: the reply is the too-many-commands error and nothing executes.
pub proof fn law_batch_too_many(m: StoreModel, line: Seq<u8>, now: u64)
    requires
        spec_is_batch(line),
        split_semi(line.skip(6)).len() > 3,
    ensures
        sem_line(m, line, now).0 == msg_too_many_commands() + seq![10u8],
        sem_line(m, line, now).1 == m,
{
}

/// The sweeper removes exactly the lapsed entries: afterwards no entry is
/// expired, every live entry survives unchanged, and nothing appears that
/// was not there.
pub proof fn law_sweep_purges(m: StoreModel, now: u64)
    ensures
        forall|k: Seq<u8>| #[trigger]
            Store::spec_sweep(m, now).dom().contains(k) ==> spec_live(m, k, now)
                && Store::spec_sweep(m, now)[k] == m[k],
        forall|k: Seq<u8>|
            spec_live(m, k, now) ==> #[trigger] Store::spec_sweep(m, now).dom().contains(k),
        forall|k: Seq<u8>| #[trigger]
            Store::spec_sweep(m, now).dom().contains(k) ==> !spec_expired(
                Store::spec_sweep(m, now)[k],
                now,
            ),
{
}

/// The size boundary: a key of exactly 100 bytes is accepted by `SET`; one
/// of 101 bytes is refused with the invalid-length error and the store is
/// untouched.
pub proof fn law_key_length_boundary(
    m: StoreModel,
    k_ok: Seq<u8>,
    k_long: Seq<u8>,
    v: Seq<u8>,
    now: u64,
)
    requires
        k_ok.len() == 100,
        k_long.len() == 101,
        v.len() <= 100,
    ensures
        sem_single(m, seq![tok_set(), k_ok, v], now, false).0 == msg_ok(),
        sem_single(m, seq![tok_set(), k_long, v], now, false).0 == msg_invalid_length(),
        sem_single(m, seq![tok_set(), k_long, v], now, false).1 == m,
{
    let ok_toks = seq![tok_set(), k_ok, v];
    let long_toks = seq![tok_set(), k_long, v];
    assert(ok_toks[0] == tok_set() && ok_toks[1] == k_ok && ok_toks[2] == v);
    assert(long_toks[0] == tok_set() && long_toks[1] == k_long && long_toks[2] == v);
}

} // verus!

