//! The flat `key=value` configuration text, read once at process start.
//! The reading of the file stays with the caller; this module turns its
//! content into key/value pairs and answers lookups, later lines winning
//! over earlier ones as repeated keys overwrite.

use vstd::prelude::*;
use vstd::slice::slice_to_vec;
use crate::ascii::{spec_trim, trim, bytes_eq};
use crate::protocol::{sep_pos, split_at_byte, split_byte, find_byte, views_of};
use crate::store::clone_bytes;

verus! {

/// The pair a configuration line denotes: the text around its first `=`,
/// both sides trimmed. A line without `=` denotes nothing.
pub open spec fn spec_config_line(l: Seq<u8>) -> Option<(Seq<u8>, Seq<u8>)> {
    if sep_pos(l, 61) == l.len() {
        None
    } else {
        Some((spec_trim(l.take(sep_pos(l, 61))), spec_trim(l.skip(sep_pos(l, 61) + 1))))
    }
}

/// The pairs of a sequence of lines, in file order, duplicates kept.
pub open spec fn spec_config_pairs(lines: Seq<Seq<u8>>) -> Seq<(Seq<u8>, Seq<u8>)>
    decreases lines.len(),
{
    if lines.len() == 0 {
        Seq::empty()
    } else {
        match spec_config_line(lines[0]) {
            Some(p) => seq![p] + spec_config_pairs(lines.skip(1)),
            None => spec_config_pairs(lines.skip(1)),
        }
    }
}

pub open spec fn pair_views(ps: Seq<(Vec<u8>, Vec<u8>)>) -> Seq<(Seq<u8>, Seq<u8>)> {
    Seq::new(ps.len(), |i: int| (ps[i].0@, ps[i].1@))
}

/// Parse configuration text: one `key=value` pair per line that holds an
/// equals sign, split at the first one, both sides trimmed.
pub fn parse_config(content: &[u8]) -> (r: Vec<(Vec<u8>, Vec<u8>)>)
    ensures
        pair_views(r@) == spec_config_pairs(split_at_byte(content@, 10)),
{
    let lines = split_byte(content, 10);
    let ghost lv = split_at_byte(content@, 10);
    let mut out: Vec<(Vec<u8>, Vec<u8>)> = Vec::new();
    let n = lines.len();
    let mut i: usize = 0;
    proof {
        assert(lv.skip(0) =~= lv);
        assert(pair_views(out@) =~= Seq::<(Seq<u8>, Seq<u8>)>::empty());
        assert(pair_views(out@) + spec_config_pairs(lv) =~= spec_config_pairs(lv));
    }
    while i < n
        invariant
            n == lines@.len(),
            i <= n,
            views_of(lines@) == lv,
            spec_config_pairs(lv) == pair_views(out@) + spec_config_pairs(lv.skip(i as int)),
        decreases n - i,
    {
        proof {
            assert(lines@[i as int]@ == lv[i as int]);
            assert(lv.skip(i as int)[0] == lv[i as int]);
            assert(lv.skip(i as int).skip(1) =~= lv.skip(i + 1));
        }
        let line: &[u8] = lines[i].as_slice();
        match find_byte(line, 61) {
            Some(eq) => {
                assert(eq < line@.len());
                let key_part: &[u8] = &line[0..eq];
                let val_part: &[u8] = &line[eq + 1..line.len()];
                proof {
                    assert(key_part@ =~= line@.take(eq as int));
                    assert(val_part@ =~= line@.skip(eq + 1));
                }
                let key = slice_to_vec(trim(key_part));
                let val = slice_to_vec(trim(val_part));
                let ghost p = (key@, val@);
                proof {
                    assert(spec_config_line(lv[i as int]) == Some(p));
                    assert(pair_views(out@.push((key, val))) =~= pair_views(out@) + seq![p]);
                    assert((pair_views(out@) + seq![p]) + spec_config_pairs(lv.skip(i + 1))
                        =~= pair_views(out@) + (seq![p] + spec_config_pairs(lv.skip(i + 1))));
                }
                out.push((key, val));
            }
            None => {
            }
        }
        i = i + 1;
    }
    proof {
        assert(lv.skip(n as int) =~= Seq::<Seq<u8>>::empty());
        assert(pair_views(out@) + Seq::<(Seq<u8>, Seq<u8>)>::empty() =~= pair_views(out@));
    }
    out
}

/// The value the configuration gives a key: that of its last line for the
/// key, as later lines overwrite earlier ones.
pub open spec fn spec_config_get(ps: Seq<(Seq<u8>, Seq<u8>)>, k: Seq<u8>) -> Option<Seq<u8>>
    decreases ps.len(),
{
    if ps.len() == 0 {
        None
    } else if ps.last().0 == k {
        Some(ps.last().1)
    } else {
        spec_config_get(ps.drop_last(), k)
    }
}

/// Look a key up among parsed pairs.
pub fn config_get(pairs: &Vec<(Vec<u8>, Vec<u8>)>, key: &[u8]) -> (r: Option<Vec<u8>>)
    ensures
        match r {
            Some(v) => spec_config_get(pair_views(pairs@), key@) == Some(v@),
            None => spec_config_get(pair_views(pairs@), key@) is None,
        },
{
    let ghost pv = pair_views(pairs@);
    let mut i: usize = pairs.len();
    proof {
        assert(pv.take(pairs@.len() as int) =~= pv);
    }
    while i > 0
        invariant
            i <= pairs@.len(),
            pv == pair_views(pairs@),
            spec_config_get(pv, key@) == spec_config_get(pv.take(i as int), key@),
        decreases i,
    {
        i = i - 1;
        proof {
            assert(pv.take(i + 1).last() == pv[i as int]);
            assert(pv.take(i + 1).drop_last() =~= pv.take(i as int));
            assert(pv[i as int] == (pairs@[i as int].0@, pairs@[i as int].1@));
        }
        if bytes_eq(pairs[i].0.as_slice(), key) {
            return Some(clone_bytes(&pairs[i].1));
        }
    }
    proof {
        assert(pv.take(0) =~= Seq::<(Seq<u8>, Seq<u8>)>::empty());
    }
    None
}

} // verus!
