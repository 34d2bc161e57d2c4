use shrmpl::dispatch::process_command;
use shrmpl::store::Store;

fn run(store: &mut Store, line: &[u8], now: u64) -> Vec<u8> {
    process_command(store, line, now)
}

#[test]
fn ping_replies_pong() {
    let mut s = Store::new();
    assert_eq!(run(&mut s, b"PING", 0), b"PONG\n".to_vec());
}

#[test]
fn ping_with_arguments_is_invalid() {
    let mut s = Store::new();
    assert_eq!(run(&mut s, b"PING extra", 0), b"ERROR invalid arguments\n".to_vec());
}

#[test]
fn set_then_get_returns_value() {
    let mut s = Store::new();
    assert_eq!(run(&mut s, b"SET greeting hello", 10), b"OK\n".to_vec());
    assert_eq!(run(&mut s, b"GET greeting", 10), b"hello\n".to_vec());
    assert_eq!(run(&mut s, b"GET greeting", 9_999_999), b"hello\n".to_vec());
}

#[test]
fn set_overwrites_entirely() {
    let mut s = Store::new();
    assert_eq!(run(&mut s, b"SET k first 100s", 10), b"OK\n".to_vec());
    assert_eq!(run(&mut s, b"SET k second", 10), b"OK\n".to_vec());
    // the new entry has no expiration at all
    assert_eq!(run(&mut s, b"GET k", 10_000), b"second\n".to_vec());
}

#[test]
fn get_missing_key() {
    let mut s = Store::new();
    assert_eq!(run(&mut s, b"GET nothing", 0), b"ERROR key not found\n".to_vec());
}

#[test]
fn integer_values_are_coerced() {
    let mut s = Store::new();
    assert_eq!(run(&mut s, b"SET n 41", 0), b"OK\n".to_vec());
    assert_eq!(run(&mut s, b"INCR n", 0), b"42\n".to_vec());
    assert_eq!(run(&mut s, b"GET n", 0), b"42\n".to_vec());
}

#[test]
fn negative_integer_values_are_coerced() {
    let mut s = Store::new();
    assert_eq!(run(&mut s, b"SET n -3", 0), b"OK\n".to_vec());
    assert_eq!(run(&mut s, b"INCR n", 0), b"-2\n".to_vec());
}

#[test]
fn incr_counts_up_from_absent() {
    let mut s = Store::new();
    assert_eq!(run(&mut s, b"INCR counter", 5), b"1\n".to_vec());
    assert_eq!(run(&mut s, b"INCR counter", 5), b"2\n".to_vec());
    assert_eq!(run(&mut s, b"INCR counter", 5), b"3\n".to_vec());
}

#[test]
fn n_sequential_incrs_reach_n() {
    let mut s = Store::new();
    let mut last = Vec::new();
    for _ in 0..25 {
        last = run(&mut s, b"INCR shared", 77);
    }
    assert_eq!(last, b"25\n".to_vec());
    assert_eq!(run(&mut s, b"GET shared", 77), b"25\n".to_vec());
}

#[test]
fn incr_resets_text_to_one() {
    let mut s = Store::new();
    assert_eq!(run(&mut s, b"SET w definitely-not-a-number", 0), b"OK\n".to_vec());
    assert_eq!(run(&mut s, b"INCR w", 0), b"1\n".to_vec());
    assert_eq!(run(&mut s, b"SET w2 12x", 0), b"OK\n".to_vec());
    assert_eq!(run(&mut s, b"INCR w2", 0), b"1\n".to_vec());
}

#[test]
fn set_with_ttl_expires() {
    let mut s = Store::new();
    assert_eq!(run(&mut s, b"SET k v 1s", 100), b"OK\n".to_vec());
    // still there strictly before the expiry instant
    assert_eq!(run(&mut s, b"GET k", 100), b"v\n".to_vec());
    // gone once the instant is reached, and the read evicts it
    assert_eq!(run(&mut s, b"GET k", 101), b"ERROR key not found\n".to_vec());
    assert_eq!(run(&mut s, b"GET k", 101), b"ERROR key not found\n".to_vec());
}

#[test]
fn ttl_units_scale() {
    let mut s = Store::new();
    assert_eq!(run(&mut s, b"SET a x 2min", 0), b"OK\n".to_vec());
    assert_eq!(run(&mut s, b"GET a", 119), b"x\n".to_vec());
    assert_eq!(run(&mut s, b"GET a", 120), b"ERROR key not found\n".to_vec());
    assert_eq!(run(&mut s, b"SET b y 1h", 0), b"OK\n".to_vec());
    assert_eq!(run(&mut s, b"GET b", 3599), b"y\n".to_vec());
    assert_eq!(run(&mut s, b"GET b", 3600), b"ERROR key not found\n".to_vec());
}

#[test]
fn incr_ttl_only_on_fresh_key() {
    let mut s = Store::new();
    assert_eq!(run(&mut s, b"INCR c 5s", 1000), b"1\n".to_vec());
    // a later INCR without a TTL keeps the first expiry
    assert_eq!(run(&mut s, b"INCR c", 1003), b"2\n".to_vec());
    assert_eq!(run(&mut s, b"GET c", 1004), b"2\n".to_vec());
    assert_eq!(run(&mut s, b"GET c", 1005), b"ERROR key not found\n".to_vec());
}

#[test]
fn incr_ttl_on_existing_key_is_not_applied() {
    let mut s = Store::new();
    assert_eq!(run(&mut s, b"INCR c", 0), b"1\n".to_vec());
    assert_eq!(run(&mut s, b"INCR c 5s", 0), b"2\n".to_vec());
    // the entry still never expires
    assert_eq!(run(&mut s, b"GET c", 1_000_000), b"2\n".to_vec());
}

#[test]
fn incr_on_expired_key_starts_fresh() {
    let mut s = Store::new();
    assert_eq!(run(&mut s, b"SET c 10 1s", 0), b"OK\n".to_vec());
    assert_eq!(run(&mut s, b"INCR c 30s", 5), b"1\n".to_vec());
    assert_eq!(run(&mut s, b"GET c", 34), b"1\n".to_vec());
    assert_eq!(run(&mut s, b"GET c", 35), b"ERROR key not found\n".to_vec());
}

#[test]
fn del_is_not_idempotent_in_reply() {
    let mut s = Store::new();
    assert_eq!(run(&mut s, b"SET k v", 0), b"OK\n".to_vec());
    assert_eq!(run(&mut s, b"DEL k", 0), b"OK\n".to_vec());
    assert_eq!(run(&mut s, b"DEL k", 0), b"ERROR key not found\n".to_vec());
}

#[test]
fn del_of_expired_key_reports_missing() {
    let mut s = Store::new();
    assert_eq!(run(&mut s, b"SET k v 1s", 0), b"OK\n".to_vec());
    assert_eq!(run(&mut s, b"DEL k", 1), b"ERROR key not found\n".to_vec());
}

#[test]
fn key_length_boundary() {
    let mut s = Store::new();
    let mut line = b"SET ".to_vec();
    line.extend(std::iter::repeat(b'k').take(100));
    line.extend(b" v");
    assert_eq!(run(&mut s, &line, 0), b"OK\n".to_vec());
    let mut long = b"SET ".to_vec();
    long.extend(std::iter::repeat(b'k').take(101));
    long.extend(b" v");
    assert_eq!(run(&mut s, &long, 0), b"ERROR invalid length\n".to_vec());
}

#[test]
fn value_length_boundary() {
    let mut s = Store::new();
    let mut line = b"SET k ".to_vec();
    line.extend(std::iter::repeat(b'v').take(100));
    assert_eq!(run(&mut s, &line, 0), b"OK\n".to_vec());
    let mut long = b"SET k ".to_vec();
    long.extend(std::iter::repeat(b'v').take(101));
    assert_eq!(run(&mut s, &long, 0), b"ERROR invalid length\n".to_vec());
}

#[test]
fn argument_count_errors() {
    let mut s = Store::new();
    assert_eq!(run(&mut s, b"GET", 0), b"ERROR invalid arguments\n".to_vec());
    assert_eq!(run(&mut s, b"GET a b", 0), b"ERROR invalid arguments\n".to_vec());
    assert_eq!(run(&mut s, b"SET a", 0), b"ERROR invalid arguments\n".to_vec());
    assert_eq!(run(&mut s, b"SET a b c d", 0), b"ERROR invalid arguments\n".to_vec());
    assert_eq!(run(&mut s, b"INCR", 0), b"ERROR invalid arguments\n".to_vec());
    assert_eq!(run(&mut s, b"DEL", 0), b"ERROR invalid arguments\n".to_vec());
    assert_eq!(run(&mut s, b"LIST extra", 0), b"ERROR invalid arguments\n".to_vec());
}

#[test]
fn invalid_expiration_errors() {
    let mut s = Store::new();
    assert_eq!(run(&mut s, b"SET k v 5", 0), b"ERROR invalid expiration\n".to_vec());
    assert_eq!(run(&mut s, b"SET k v 5m", 0), b"ERROR invalid expiration\n".to_vec());
    assert_eq!(run(&mut s, b"SET k v s", 0), b"ERROR invalid expiration\n".to_vec());
    assert_eq!(run(&mut s, b"SET k v x5s", 0), b"ERROR invalid expiration\n".to_vec());
    assert_eq!(run(&mut s, b"INCR k nope", 0), b"ERROR invalid expiration\n".to_vec());
    // nothing was stored by any of the rejected lines
    assert_eq!(run(&mut s, b"GET k", 0), b"ERROR key not found\n".to_vec());
}

#[test]
fn unknown_command_error() {
    let mut s = Store::new();
    assert_eq!(run(&mut s, b"FROB a b", 0), b"ERROR unknown command\n".to_vec());
    assert_eq!(run(&mut s, b"BATCH", 0), b"ERROR unknown command\n".to_vec());
}

#[test]
fn whitespace_is_collapsed() {
    let mut s = Store::new();
    assert_eq!(run(&mut s, b"  SET \t k   v  ", 0), b"OK\n".to_vec());
    assert_eq!(run(&mut s, b"GET k", 0), b"v\n".to_vec());
}

#[test]
fn batch_runs_each_sub_command() {
    let mut s = Store::new();
    assert_eq!(run(&mut s, b"SET a va", 0), b"OK\n".to_vec());
    let reply = run(&mut s, b"BATCH GET a;INCR b;DEL c", 0);
    assert_eq!(reply, b"va;1;ERROR key not found\n".to_vec());
    // the INCR really happened
    assert_eq!(run(&mut s, b"GET b", 0), b"1\n".to_vec());
}

#[test]
fn batch_of_four_executes_nothing() {
    let mut s = Store::new();
    let reply = run(&mut s, b"BATCH SET a 1;SET b 2;SET c 3;SET d 4", 0);
    assert_eq!(reply, b"ERROR too many commands\n".to_vec());
    assert_eq!(run(&mut s, b"GET a", 0), b"ERROR key not found\n".to_vec());
    assert_eq!(run(&mut s, b"GET d", 0), b"ERROR key not found\n".to_vec());
}

#[test]
fn batch_counts_empty_pieces_against_the_limit() {
    let mut s = Store::new();
    assert_eq!(run(&mut s, b"BATCH PING;;PING;", 0), b"ERROR too many commands\n".to_vec());
}

#[test]
fn batch_skips_empty_pieces() {
    let mut s = Store::new();
    assert_eq!(run(&mut s, b"BATCH PING; ;PING", 0), b"PONG;PONG\n".to_vec());
    assert_eq!(run(&mut s, b"BATCH ;;", 0), b"\n".to_vec());
}

#[test]
fn batch_rejects_nested_batch_and_list() {
    let mut s = Store::new();
    assert_eq!(run(&mut s, b"BATCH BATCH PING;PING", 0), b"ERROR unknown command;PONG\n".to_vec());
    assert_eq!(run(&mut s, b"BATCH LIST", 0), b"ERROR unknown command\n".to_vec());
}

#[test]
fn batch_sub_commands_see_earlier_effects() {
    let mut s = Store::new();
    let reply = run(&mut s, b"BATCH SET x 7;INCR x;GET x", 0);
    assert_eq!(reply, b"OK;8;8\n".to_vec());
}

#[test]
fn list_empty_store_is_one_empty_line() {
    let s_reply = run(&mut Store::new(), b"LIST", 0);
    assert_eq!(s_reply, b"\n".to_vec());
}

#[test]
fn list_shows_each_entry_once() {
    let mut s = Store::new();
    run(&mut s, b"SET a 1", 50);
    run(&mut s, b"SET b two 100s", 50);
    let reply = run(&mut s, b"LIST", 50);
    let text = String::from_utf8(reply).unwrap();
    let mut lines: Vec<&str> = text.lines().collect();
    lines.sort();
    assert_eq!(lines, vec!["a=1,no-expiration", "b=two,150"]);
}

#[test]
fn list_has_no_eviction_side_effect() {
    let mut s = Store::new();
    run(&mut s, b"SET k v 1s", 0);
    // the listing taken after expiry still shows the stale entry
    let reply = run(&mut s, b"LIST", 100);
    assert_eq!(reply, b"k=v,1\n".to_vec());
    // a read evicts it, and the next listing is empty
    assert_eq!(run(&mut s, b"GET k", 100), b"ERROR key not found\n".to_vec());
    assert_eq!(run(&mut s, b"LIST", 100), b"\n".to_vec());
}

#[test]
fn list_does_not_start_with_batch_prefix_confusion() {
    let mut s = Store::new();
    // a line that merely mentions BATCH without the prefix is unknown
    assert_eq!(run(&mut s, b" BATCH PING", 0), b"ERROR unknown command\n".to_vec());
}
