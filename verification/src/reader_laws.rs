use vstd::prelude::*;

use crate::error::{ParseError, ParseFailure};
use crate::helpers::header_verdict;
use crate::tree_laws::lemma_ids_list_cons;
use crate::model::{
    be16, be32, be64, end_of_buffer, spec_parse, spec_parse_at, spec_read_entries, spec_read_items,
    spec_read_payload, spec_read_string, TagValue, TagView, tree_ids, ids_list, child_ids,
    strictly_increasing, ids_within, fresh_tag, plain_tree, plain_list, plain_value,
};

verus! {

/// Reading a prefix `t` of `s` from `pos` gives what reading `s` gives, or
/// runs out of bytes.
pub open spec fn agrees_or_ends<T>(on_prefix: Result<T, ParseFailure>, on_whole: Result<T, ParseFailure>) -> bool {
    on_prefix == end_of_buffer::<T>() || on_prefix == on_whole
}

proof fn lemma_prefix_string(s: Seq<u8>, t: Seq<u8>, pos: int)
    requires
        t.len() <= s.len(),
        t == s.take(t.len() as int),
    ensures
        agrees_or_ends(spec_read_string(t, pos), spec_read_string(s, pos)),
{
    if pos >= 0 && pos + 2 <= t.len() {
        assert(be16(t, pos) == be16(s, pos));
        let n = be16(t, pos);
        if pos + 2 + n <= t.len() {
            assert(t.subrange(pos + 2, pos + 2 + n) =~= s.subrange(pos + 2, pos + 2 + n));
        }
    }
}

#[verifier::spinoff_prover]
proof fn lemma_prefix_scalar(s: Seq<u8>, t: Seq<u8>, ty: u8, pos: int, id: int)
    requires
        t.len() <= s.len(),
        t == s.take(t.len() as int),
        1 <= ty <= 6,
        0 <= pos <= t.len(),
    ensures
        agrees_or_ends(spec_read_payload(t, ty, pos, id), spec_read_payload(s, ty, pos, id)),
{
    if pos + 8 <= t.len() {
        assert(be64(t, pos) == be64(s, pos));
    }
    if pos + 4 <= t.len() {
        assert(be32(t, pos) == be32(s, pos));
    }
    if pos + 2 <= t.len() {
        assert(be16(t, pos) == be16(s, pos));
    }
}

#[verifier::spinoff_prover]
proof fn lemma_prefix_array(s: Seq<u8>, t: Seq<u8>, ty: u8, pos: int, id: int)
    requires
        t.len() <= s.len(),
        t == s.take(t.len() as int),
        ty == 7 || ty == 11 || ty == 12,
        0 <= pos <= t.len(),
    ensures
        agrees_or_ends(spec_read_payload(t, ty, pos, id), spec_read_payload(s, ty, pos, id)),
{
    if pos + 4 <= t.len() {
        assert(be32(t, pos) == be32(s, pos));
        let n = crate::model::to_i32(be32(t, pos));
        if n >= 0 {
            if ty == 7 && pos + 4 + n <= t.len() {
                assert(Seq::new(n as nat, |i: int| crate::model::to_i8(t[pos + 4 + i]))
                    =~= Seq::new(n as nat, |i: int| crate::model::to_i8(s[pos + 4 + i])));
            }
            if ty == 11 && pos + 4 + 4 * n <= t.len() {
                assert(Seq::new(
                    n as nat,
                    |i: int| crate::model::to_i32(be32(t, pos + 4 + 4 * i)),
                ) =~= Seq::new(
                    n as nat,
                    |i: int| crate::model::to_i32(be32(s, pos + 4 + 4 * i)),
                ));
            }
            if ty == 12 && pos + 4 + 8 * n <= t.len() {
                assert(Seq::new(
                    n as nat,
                    |i: int| crate::model::to_i64(be64(t, pos + 4 + 8 * i)),
                ) =~= Seq::new(
                    n as nat,
                    |i: int| crate::model::to_i64(be64(s, pos + 4 + 8 * i)),
                ));
            }
        }
    }
}

proof fn lemma_prefix_payload(s: Seq<u8>, t: Seq<u8>, ty: u8, pos: int, id: int)
    requires
        t.len() <= s.len(),
        t == s.take(t.len() as int),
    ensures
        agrees_or_ends(spec_read_payload(t, ty, pos, id), spec_read_payload(s, ty, pos, id)),
    decreases t.len() - pos, 2int, 0int,
{
    if pos < 0 || pos > t.len() {
        return;
    }
    if ty == 1 || ty == 2 || ty == 3 || ty == 4 || ty == 5 || ty == 6 {
        lemma_prefix_scalar(s, t, ty, pos, id);
    } else if ty == 7 || ty == 11 || ty == 12 {
        lemma_prefix_array(s, t, ty, pos, id);
    } else if ty == 8 {
        lemma_prefix_string(s, t, pos);
    } else if ty == 9 {
        if pos + 5 <= t.len() {
            assert(be32(t, pos + 1) == be32(s, pos + 1));
            let n = crate::model::to_i32(be32(t, pos + 1));
            if n >= 0 {
                lemma_prefix_items(s, t, t[pos], n as int, pos + 5, id);
            }
        }
    } else if ty == 10 {
        lemma_prefix_entries(s, t, pos, id);
    }
}

proof fn lemma_prefix_items(s: Seq<u8>, t: Seq<u8>, elem: u8, n: int, pos: int, id: int)
    requires
        t.len() <= s.len(),
        t == s.take(t.len() as int),
    ensures
        agrees_or_ends(spec_read_items(t, elem, n, pos, id), spec_read_items(s, elem, n, pos, id)),
    decreases t.len() - pos, 3int, n,
{
    if n > 0 && id + 1 <= usize::MAX {
        lemma_prefix_payload(s, t, elem, pos, id + 1);
        match spec_read_payload(t, elem, pos, id + 1) {
            Ok((value, p, last)) => {
                if p >= pos && p <= t.len() {
                    lemma_prefix_items(s, t, elem, n - 1, p, last);
                }
            },
            Err(_) => {},
        }
    }
}

proof fn lemma_prefix_entries(s: Seq<u8>, t: Seq<u8>, pos: int, id: int)
    requires
        t.len() <= s.len(),
        t == s.take(t.len() as int),
    ensures
        agrees_or_ends(spec_read_entries(t, pos, id), spec_read_entries(s, pos, id)),
    decreases t.len() - pos, 1int, 0int,
{
    if id + 1 <= usize::MAX && pos >= 0 && pos < t.len() {
        let ty = t[pos];
        if ty < 13 && ty != 0 {
            lemma_prefix_string(s, t, pos + 1);
            match spec_read_string(t, pos + 1) {
                Ok((name, p1)) => {
                    if p1 > pos && p1 <= t.len() {
                        lemma_prefix_payload(s, t, ty, p1, id + 1);
                        match spec_read_payload(t, ty, p1, id + 1) {
                            Ok((value, p2, last)) => {
                                if p2 > pos && p2 <= t.len() {
                                    lemma_prefix_entries(s, t, p2, last);
                                }
                            },
                            Err(_) => {},
                        }
                    }
                },
                Err(_) => {},
            }
        }
    }
}

/// Reading stops at the end of the file: reading the first `k` bytes of `s`
/// gives what reading all of `s` gives, unless those bytes end before the
/// file does.
pub proof fn parse_of_prefix(s: Seq<u8>, k: int)
    requires
        0 <= k <= s.len(),
    ensures
        agrees_or_ends(spec_parse(s.take(k)), spec_parse(s)),
{
    let t = s.take(k);
    assert(t == s.take(t.len() as int));
    if t.len() > 0 && t[0] == 10 {
        lemma_prefix_string(s, t, 1);
        match spec_read_string(t, 1) {
            Ok((name, p)) => {
                lemma_prefix_entries(s, t, p, 0);
            },
            Err(_) => {},
        }
    }
}

/// Bytes after the end of a file are not read: a file that reads gives the
/// same tree with anything appended to it.
pub proof fn parse_ignores_trailing_bytes(s: Seq<u8>, extra: Seq<u8>)
    requires
        spec_parse(s) is Ok,
    ensures
        spec_parse(s + extra) == spec_parse(s),
{
    parse_of_prefix(s + extra, s.len() as int);
    assert((s + extra).take(s.len() as int) =~= s);
}

/// The first bytes of any file that reads pass the header check.
pub proof fn readable_files_pass_header_check(s: Seq<u8>, k: int)
    requires
        0 <= k <= s.len(),
        spec_parse(s) is Ok,
    ensures
        header_verdict(s.take(k)) == Ok::<bool, ParseFailure>(true),
{
    parse_of_prefix(s, k);
}

proof fn lemma_concat_ids(a: Seq<usize>, b: Seq<usize>, lo: int, mid: int, hi: int)
    requires
        strictly_increasing(a),
        ids_within(a, lo, mid),
        strictly_increasing(b),
        ids_within(b, mid, hi),
        lo <= mid <= hi,
    ensures
        strictly_increasing(a + b),
        ids_within(a + b, lo, hi),
{
    assert forall|i: int, j: int| 0 <= i < j < (a + b).len() implies (a + b)[i] < (a + b)[j] by {
        if j < a.len() {
            assert(a[i] < a[j]);
        } else if i < a.len() {
            assert(a[i] <= mid);
            assert(mid < b[j - a.len()]);
        } else {
            assert(b[i - a.len()] < b[j - a.len()]);
        }
    }
    assert forall|i: int| 0 <= i < (a + b).len() implies lo < #[trigger] (a + b)[i] <= hi by {
        if i < a.len() {
            assert(lo < a[i] <= mid);
        } else {
            assert(mid < b[i - a.len()] <= hi);
        }
    }
}

/// A fresh tag with identifier `id + 1` whose payload holds identifiers in
/// `(id + 1, last]`.
proof fn lemma_fresh_ids(id: int, name: Option<Seq<char>>, value: TagValue, last: int)
    requires
        0 <= id,
        id + 1 <= usize::MAX,
        id + 1 <= last,
        strictly_increasing(child_ids(value)),
        ids_within(child_ids(value), id + 1, last),
    ensures
        strictly_increasing(tree_ids(fresh_tag((id + 1) as usize, name, value))),
        ids_within(tree_ids(fresh_tag((id + 1) as usize, name, value)), id, last),
{
    let x = fresh_tag((id + 1) as usize, name, value);
    let head = seq![x.id];
    assert(strictly_increasing(head));
    assert(ids_within(head, id, id + 1));
    assert(tree_ids(x) == head + child_ids(value));
    lemma_concat_ids(head, child_ids(value), id, id + 1, last);
}

proof fn lemma_ids_payload(s: Seq<u8>, ty: u8, pos: int, id: int)
    requires
        0 <= id,
    ensures
        spec_read_payload(s, ty, pos, id) matches Ok((v, p, last)) ==> {
            &&& id <= last
            &&& strictly_increasing(child_ids(v))
            &&& ids_within(child_ids(v), id, last)
        },
    decreases s.len() - pos, 2int, 0int,
{
    if pos < 0 || pos > s.len() {
        return;
    }
    if ty == 9 {
        if pos + 5 <= s.len() {
            let n = crate::model::to_i32(be32(s, pos + 1));
            if n >= 0 {
                lemma_ids_items(s, s[pos], n as int, pos + 5, id);
            }
        }
    } else if ty == 10 {
        lemma_ids_entries(s, pos, id);
    } else {
        assert(child_ids(TagValue::End) =~= Seq::<usize>::empty());
    }
}

proof fn lemma_ids_items(s: Seq<u8>, elem: u8, n: int, pos: int, id: int)
    requires
        0 <= id,
    ensures
        spec_read_items(s, elem, n, pos, id) matches Ok((ts, p, last)) ==> {
            &&& id <= last
            &&& strictly_increasing(ids_list(ts))
            &&& ids_within(ids_list(ts), id, last)
        },
    decreases s.len() - pos, 3int, n,
{
    if n <= 0 {
        assert(ids_list(Seq::<TagView>::empty()) =~= Seq::<usize>::empty());
    } else if id + 1 <= usize::MAX {
        lemma_ids_payload(s, elem, pos, id + 1);
        match spec_read_payload(s, elem, pos, id + 1) {
            Ok((value, p, last)) => {
                if p >= pos && p <= s.len() {
                    lemma_ids_items(s, elem, n - 1, p, last);
                    match spec_read_items(s, elem, n - 1, p, last) {
                        Ok((rest, q, last2)) => {
                            let x = fresh_tag((id + 1) as usize, None, value);
                            lemma_fresh_ids(id, None, value, last);
                            lemma_ids_list_cons(x, rest);
                            lemma_concat_ids(tree_ids(x), ids_list(rest), id, last, last2);
                        },
                        Err(_) => {},
                    }
                }
            },
            Err(_) => {},
        }
    }
}

proof fn lemma_ids_entries(s: Seq<u8>, pos: int, id: int)
    requires
        0 <= id,
    ensures
        spec_read_entries(s, pos, id) matches Ok((ts, p, last)) ==> {
            &&& id <= last
            &&& strictly_increasing(ids_list(ts))
            &&& ids_within(ids_list(ts), id, last)
        },
    decreases s.len() - pos, 1int, 0int,
{
    if id + 1 <= usize::MAX && pos >= 0 && pos < s.len() {
        let ty = s[pos];
        if ty == 0 {
            assert(ids_list(Seq::<TagView>::empty()) =~= Seq::<usize>::empty());
        } else if ty < 13 {
            match spec_read_string(s, pos + 1) {
                Ok((name, p1)) => {
                    if p1 > pos && p1 <= s.len() {
                        lemma_ids_payload(s, ty, p1, id + 1);
                        match spec_read_payload(s, ty, p1, id + 1) {
                            Ok((value, p2, last)) => {
                                if p2 > pos && p2 <= s.len() {
                                    lemma_ids_entries(s, p2, last);
                                    match spec_read_entries(s, p2, last) {
                                        Ok((rest, q, last2)) => {
                                            let x = fresh_tag((id + 1) as usize, Some(name), value);
                                            lemma_fresh_ids(id, Some(name), value, last);
                                            lemma_ids_list_cons(x, rest);
                                            lemma_concat_ids(
                                                tree_ids(x),
                                                ids_list(rest),
                                                id,
                                                last,
                                                last2,
                                            );
                                        },
                                        Err(_) => {},
                                    }
                                }
                            },
                            Err(_) => {},
                        }
                    }
                },
                Err(_) => {},
            }
        }
    }
}

/// The reader gives every tag an identifier of its own: the root gets 0,
/// and the identifiers grow in reading order, so no two tags share one.
pub proof fn parsed_ids_are_distinct(s: Seq<u8>)
    ensures
        spec_parse(s) matches Ok(root) ==> {
            &&& root.id == 0
            &&& strictly_increasing(tree_ids(root))
        },
{
    if s.len() > 0 && s[0] == 10 {
        match spec_read_string(s, 1) {
            Ok((name, p)) => {
                lemma_ids_entries(s, p, 0);
                match spec_read_entries(s, p, 0) {
                    Ok((entries, q, last)) => {
                        let root = fresh_tag(0, Some(name), TagValue::Compound(entries));
                        let head = seq![0usize];
                        assert(ids_within(head, -1, 0));
                        assert(tree_ids(root) == head + ids_list(entries));
                        lemma_concat_ids(head, ids_list(entries), -1, 0, last);
                    },
                    Err(_) => {},
                }
            },
            Err(_) => {},
        }
    }
}

/// Every entry that a compound read holds has a name and both display
/// flags off.
proof fn lemma_entries_named(s: Seq<u8>, pos: int, id: int)
    ensures
        spec_read_entries(s, pos, id) matches Ok((ts, p, last)) ==> forall|i: int|
            0 <= i < ts.len() ==> {
                &&& (#[trigger] ts[i]).name is Some
                &&& !ts[i].expanded
                &&& !ts[i].hidden
            },
    decreases s.len() - pos,
{
    if id + 1 <= usize::MAX && pos >= 0 && pos < s.len() {
        let ty = s[pos];
        if ty != 0 && ty < 13 {
            match spec_read_string(s, pos + 1) {
                Ok((name, p1)) => {
                    if p1 > pos && p1 <= s.len() {
                        match spec_read_payload(s, ty, p1, id + 1) {
                            Ok((value, p2, last)) => {
                                if p2 > pos && p2 <= s.len() {
                                    lemma_entries_named(s, p2, last);
                                    match spec_read_entries(s, p2, last) {
                                        Ok((rest, q, last2)) => {
                                            let x = fresh_tag((id + 1) as usize, Some(name), value);
                                            let ts = seq![x] + rest;
                                            assert forall|i: int| 0 <= i < ts.len() implies {
                                                &&& (#[trigger] ts[i]).name is Some
                                                &&& !ts[i].expanded
                                                &&& !ts[i].hidden
                                            } by {
                                                if i > 0 {
                                                    assert(ts[i] == rest[i - 1]);
                                                }
                                            }
                                        },
                                        Err(_) => {},
                                    }
                                }
                            },
                            Err(_) => {},
                        }
                    }
                },
                Err(_) => {},
            }
        }
    }
}

/// A compound that reads holds named tags, no tag inside it, at any depth,
/// is expanded or hidden, and the tags inside it, at any depth, take identifiers after the last one
/// handed out before the read and up to the last one handed out after it,
/// growing in reading order: every tag's identifier is below those of the
/// tags inside it and of the tags read after it.
pub proof fn compound_entries_are_fresh(s: Seq<u8>, pos: int, id: int)
    requires
        0 <= id,
    ensures
        spec_read_payload(s, 10, pos, id) matches Ok((v, p, last)) ==> {
            &&& v matches TagValue::Compound(ts)
            &&& forall|i: int|
                0 <= i < ts.len() ==> {
                    &&& (#[trigger] ts[i]).name is Some
                    &&& !ts[i].expanded
                    &&& !ts[i].hidden
                }
            &&& plain_value(v)
            &&& id <= last
            &&& strictly_increasing(child_ids(v))
            &&& ids_within(child_ids(v), id, last)
        },
{
    lemma_ids_payload(s, 10, pos, id);
    lemma_entries_named(s, pos, id);
    lemma_plain_payload(s, 10, pos, id);
}

/// A file is a compound tag with a name: reading one whose first byte is
/// the compound type reads the name, then a compound, and fails with the
/// first failure of those two reads.
pub proof fn parse_reads_name_then_compound(s: Seq<u8>, pos: int, id: int)
    requires
        0 <= pos < s.len(),
        s[pos] == 10,
    ensures
        spec_parse_at(s, pos, id) == match spec_read_string(s, pos + 1) {
            Ok((name, p)) => match spec_read_payload(s, 10, p, id) {
                Ok((v, _, _)) => Ok(fresh_tag(0, Some(name), v)),
                Err(e) => Err(e),
            },
            Err(e) => Err(e),
        },
{
}

proof fn lemma_plain_cons(x: TagView, rest: Seq<TagView>)
    ensures
        plain_list(seq![x] + rest) == (plain_tree(x) && plain_list(rest)),
{
    let ts = seq![x] + rest;
    assert(ts[0] == x);
    assert(ts.subrange(1, ts.len() as int) =~= rest);
}

proof fn lemma_plain_payload(s: Seq<u8>, ty: u8, pos: int, id: int)
    ensures
        spec_read_payload(s, ty, pos, id) matches Ok((v, p, last)) ==> plain_value(v),
    decreases s.len() - pos, 2int, 0int,
{
    if pos < 0 || pos > s.len() {
        return;
    }
    if ty == 9 {
        if pos + 5 <= s.len() {
            let n = crate::model::to_i32(be32(s, pos + 1));
            if n >= 0 {
                lemma_plain_items(s, s[pos], n as int, pos + 5, id);
            }
        }
    } else if ty == 10 {
        lemma_plain_entries(s, pos, id);
    }
}

proof fn lemma_plain_items(s: Seq<u8>, elem: u8, n: int, pos: int, id: int)
    ensures
        spec_read_items(s, elem, n, pos, id) matches Ok((ts, p, last)) ==> plain_list(ts),
    decreases s.len() - pos, 3int, n,
{
    if n > 0 && id + 1 <= usize::MAX {
        lemma_plain_payload(s, elem, pos, id + 1);
        match spec_read_payload(s, elem, pos, id + 1) {
            Ok((value, p, last)) => {
                if p >= pos && p <= s.len() {
                    lemma_plain_items(s, elem, n - 1, p, last);
                    match spec_read_items(s, elem, n - 1, p, last) {
                        Ok((rest, q, last2)) => {
                            lemma_plain_cons(fresh_tag((id + 1) as usize, None, value), rest);
                        },
                        Err(_) => {},
                    }
                }
            },
            Err(_) => {},
        }
    }
}

proof fn lemma_plain_entries(s: Seq<u8>, pos: int, id: int)
    ensures
        spec_read_entries(s, pos, id) matches Ok((ts, p, last)) ==> plain_list(ts),
    decreases s.len() - pos, 1int, 0int,
{
    if id + 1 <= usize::MAX && pos >= 0 && pos < s.len() {
        let ty = s[pos];
        if ty != 0 && ty < 13 {
            match spec_read_string(s, pos + 1) {
                Ok((name, p1)) => {
                    if p1 > pos && p1 <= s.len() {
                        lemma_plain_payload(s, ty, p1, id + 1);
                        match spec_read_payload(s, ty, p1, id + 1) {
                            Ok((value, p2, last)) => {
                                if p2 > pos && p2 <= s.len() {
                                    lemma_plain_entries(s, p2, last);
                                    match spec_read_entries(s, p2, last) {
                                        Ok((rest, q, last2)) => {
                                            lemma_plain_cons(
                                                fresh_tag((id + 1) as usize, Some(name), value),
                                                rest,
                                            );
                                        },
                                        Err(_) => {},
                                    }
                                }
                            },
                            Err(_) => {},
                        }
                    }
                },
                Err(_) => {},
            }
        }
    }
}

/// A file that reads is a named compound, and no tag of it, at any depth,
/// is expanded or hidden.
pub proof fn parsed_tags_are_plain(s: Seq<u8>)
    ensures
        spec_parse(s) matches Ok(root) ==> {
            &&& root.name is Some
            &&& root.value is Compound
            &&& plain_tree(root)
        },
{
    if s.len() > 0 && s[0] == 10 {
        match spec_read_string(s, 1) {
            Ok((name, p)) => {
                lemma_plain_entries(s, p, 0);
            },
            Err(_) => {},
        }
    }
}

/// The value of `k` bytes of `s` from `pos`, most significant first, read
/// as a two's complement number: less `256^k` when the top bit is set.
pub open spec fn twos_complement(u: int, k: nat) -> int {
    let range = if k == 1 {
        256int
    } else if k == 2 {
        65536int
    } else if k == 4 {
        4294967296int
    } else {
        18446744073709551616int
    };
    if u * 2 >= range {
        u - range
    } else {
        u
    }
}

/// Numbers are read big-endian: a byte, short, int or long payload at `pos`
/// is the two's complement value of the 1, 2, 4 or 8 bytes from `pos`, most
/// significant first, and a float or double payload keeps those 4 or 8
/// bytes as its bit pattern. The read takes those bytes and no identifier.
pub proof fn numbers_are_read_big_endian(s: Seq<u8>, pos: int, id: int)
    requires
        0 <= pos,
    ensures
        pos + 1 <= s.len() ==> (spec_read_payload(s, 1, pos, id) matches Ok((TagValue::Byte(v), p, d))
            && p == pos + 1 && d == id && v as int == twos_complement(s[pos] as int, 1)),
        pos + 2 <= s.len() ==> (spec_read_payload(s, 2, pos, id) matches Ok((TagValue::Short(v), p, d))
            && p == pos + 2 && d == id && v as int == twos_complement(
            s[pos] * 256 + s[pos + 1],
            2,
        )),
        pos + 4 <= s.len() ==> (spec_read_payload(s, 3, pos, id) matches Ok((TagValue::Int(v), p, d))
            && p == pos + 4 && d == id && v as int == twos_complement(
            s[pos] * 16777216 + s[pos + 1] * 65536 + s[pos + 2] * 256 + s[pos + 3],
            4,
        )),
        pos + 8 <= s.len() ==> (spec_read_payload(s, 4, pos, id) matches Ok((TagValue::Long(v), p, d))
            && p == pos + 8 && d == id && v as int == twos_complement(
            s[pos] * 72057594037927936 + s[pos + 1] * 281474976710656 + s[pos + 2] * 1099511627776
                + s[pos + 3] * 4294967296 + s[pos + 4] * 16777216 + s[pos + 5] * 65536 + s[pos + 6]
                * 256 + s[pos + 7],
            8,
        )),
        pos + 4 <= s.len() ==> (spec_read_payload(s, 5, pos, id) matches Ok((TagValue::Float(v), p, d))
            && p == pos + 4 && d == id && v as int == s[pos] * 16777216 + s[pos + 1] * 65536 + s[pos
            + 2] * 256 + s[pos + 3]),
        pos + 8 <= s.len() ==> (spec_read_payload(s, 6, pos, id) matches Ok((TagValue::Double(v), p, d))
            && p == pos + 8 && d == id && v as int == s[pos] * 72057594037927936 + s[pos + 1]
            * 281474976710656 + s[pos + 2] * 1099511627776 + s[pos + 3] * 4294967296 + s[pos + 4]
            * 16777216 + s[pos + 5] * 65536 + s[pos + 6] * 256 + s[pos + 7]),
        pos + 1 > s.len() ==> (spec_read_payload(s, 1, pos, id) == Err::<(TagValue, int, int), _>(
            ParseFailure::Rejected(ParseError::EndOfBuffer),
        )),
        pos + 2 > s.len() ==> (spec_read_payload(s, 2, pos, id) == Err::<(TagValue, int, int), _>(
            ParseFailure::Rejected(ParseError::EndOfBuffer),
        )),
        pos + 4 > s.len() ==> (spec_read_payload(s, 3, pos, id) == Err::<(TagValue, int, int), _>(
            ParseFailure::Rejected(ParseError::EndOfBuffer),
        )),
        pos + 8 > s.len() ==> (spec_read_payload(s, 4, pos, id) == Err::<(TagValue, int, int), _>(
            ParseFailure::Rejected(ParseError::EndOfBuffer),
        )),
{
    if pos + 1 <= s.len() {
        let b = s[pos];
        if b < 128 {
            assert((b as i8) as int == b as int);
        } else {
            assert(((b - 256) as i8) as int == b - 256);
        }
    }
    if pos + 2 <= s.len() {
        let u = s[pos] * 256 + s[pos + 1];
        assert(be16(s, pos) == u);
        if u < 32768 {
            assert((u as i16) as int == u);
        } else {
            assert(((u - 65536) as i16) as int == u - 65536);
        }
    }
    if pos + 4 <= s.len() {
        let u = s[pos] * 16777216 + s[pos + 1] * 65536 + s[pos + 2] * 256 + s[pos + 3];
        assert(be32(s, pos) == u);
        assert(0 <= u < 4294967296);
        if u < 0x8000_0000 {
            assert((u as i32) as int == u);
        } else {
            assert(((u - 4294967296) as i32) as int == u - 4294967296);
        }
        assert((u as u32) as int == u);
    }
    if pos + 8 <= s.len() {
        let u = s[pos] * 72057594037927936 + s[pos + 1] * 281474976710656 + s[pos + 2] * 1099511627776
            + s[pos + 3] * 4294967296 + s[pos + 4] * 16777216 + s[pos + 5] * 65536 + s[pos + 6] * 256
            + s[pos + 7];
        assert(be64(s, pos) == u);
        assert(0 <= u < 18446744073709551616);
        if u < 0x8000_0000_0000_0000 {
            assert((u as i64) as int == u);
        } else {
            assert(((u - 18446744073709551616) as i64) as int == u - 18446744073709551616);
        }
        assert((u as u64) as int == u);
    }
}

/// A string is read as a big-endian two-byte length, then that many bytes,
/// which must be UTF-8: the text read encodes back to exactly those bytes.
/// Too few bytes is running out of input; bytes that are not UTF-8 are a
/// bad payload.
pub proof fn strings_are_read_length_first(s: Seq<u8>, pos: int)
    requires
        0 <= pos,
    ensures
        pos + 2 > s.len() ==> spec_read_string(s, pos) == Err::<(Seq<char>, int), _>(
            ParseFailure::Rejected(ParseError::EndOfBuffer),
        ),
        pos + 2 <= s.len() ==> ({
            let n = s[pos] * 256 + s[pos + 1];
            &&& pos + 2 + n > s.len() ==> spec_read_string(s, pos) == Err::<(Seq<char>, int), _>(
                ParseFailure::Rejected(ParseError::EndOfBuffer),
            )
            &&& pos + 2 + n <= s.len() && !vstd::utf8::valid_utf8(s.subrange(pos + 2, pos + 2 + n))
                ==> spec_read_string(s, pos) == Err::<(Seq<char>, int), _>(
                ParseFailure::Rejected(ParseError::InvalidPayload),
            )
            &&& pos + 2 + n <= s.len() && vstd::utf8::valid_utf8(s.subrange(pos + 2, pos + 2 + n))
                ==> (spec_read_string(s, pos) matches Ok((t, p)) && p == pos + 2 + n
                && vstd::utf8::encode_utf8(t) == s.subrange(pos + 2, pos + 2 + n))
        }),
{
    if pos + 2 <= s.len() {
        let n = s[pos] * 256 + s[pos + 1];
        assert(be16(s, pos) == n);
        if pos + 2 + n <= s.len() {
            let bytes = s.subrange(pos + 2, pos + 2 + n);
            if vstd::utf8::valid_utf8(bytes) {
                vstd::utf8::decode_utf8_encode_utf8(bytes);
            }
        }
    }
}

/// The big-endian two's complement `i32` at `pos`.
pub open spec fn int_at(s: Seq<u8>, pos: int) -> int {
    twos_complement(s[pos] * 16777216 + s[pos + 1] * 65536 + s[pos + 2] * 256 + s[pos + 3], 4)
}

/// The big-endian two's complement `i64` at `pos`.
pub open spec fn long_at(s: Seq<u8>, pos: int) -> int {
    twos_complement(
        s[pos] * 72057594037927936 + s[pos + 1] * 281474976710656 + s[pos + 2] * 1099511627776
            + s[pos + 3] * 4294967296 + s[pos + 4] * 16777216 + s[pos + 5] * 65536 + s[pos + 6] * 256
            + s[pos + 7],
        8,
    )
}

proof fn lemma_int_at(s: Seq<u8>, pos: int)
    requires
        0 <= pos,
        pos + 4 <= s.len(),
    ensures
        crate::model::to_i32(be32(s, pos)) as int == int_at(s, pos),
{
    numbers_are_read_big_endian(s, pos, 0);
}

proof fn lemma_long_at(s: Seq<u8>, pos: int)
    requires
        0 <= pos,
        pos + 8 <= s.len(),
    ensures
        crate::model::to_i64(be64(s, pos)) as int == long_at(s, pos),
{
    numbers_are_read_big_endian(s, pos, 0);
}

/// Arrays are read as a big-endian `i32` count, then that many items, each
/// read big-endian in two's complement: bytes for a byte array, four bytes
/// for an int array, eight for a long array. The read takes those bytes and
/// no identifier.
pub proof fn arrays_are_read_count_first(s: Seq<u8>, pos: int, id: int)
    requires
        0 <= pos,
        pos + 4 <= s.len(),
        int_at(s, pos) >= 0,
    ensures
        pos + 4 + int_at(s, pos) <= s.len() ==> (spec_read_payload(s, 7, pos, id) matches Ok(
            (TagValue::ByteArray(v), p, d),
        ) && p == pos + 4 + int_at(s, pos) && d == id && v.len() == int_at(s, pos) && forall|i: int|
            0 <= i < v.len() ==> (#[trigger] v[i]) as int == twos_complement(s[pos + 4 + i] as int, 1)),
        pos + 4 + 4 * int_at(s, pos) <= s.len() ==> (spec_read_payload(s, 11, pos, id) matches Ok(
            (TagValue::IntArray(v), p, d),
        ) && p == pos + 4 + 4 * int_at(s, pos) && d == id && v.len() == int_at(s, pos) && forall|
            i: int,
        | 0 <= i < v.len() ==> (#[trigger] v[i]) as int == int_at(s, pos + 4 + 4 * i)),
        pos + 4 + 8 * int_at(s, pos) <= s.len() ==> (spec_read_payload(s, 12, pos, id) matches Ok(
            (TagValue::LongArray(v), p, d),
        ) && p == pos + 4 + 8 * int_at(s, pos) && d == id && v.len() == int_at(s, pos) && forall|
            i: int,
        | 0 <= i < v.len() ==> (#[trigger] v[i]) as int == long_at(s, pos + 4 + 8 * i)),
        pos + 4 + int_at(s, pos) > s.len() ==> spec_read_payload(s, 7, pos, id) == Err::<
            (TagValue, int, int),
            _,
        >(ParseFailure::Rejected(ParseError::EndOfBuffer)),
{
    lemma_int_at(s, pos);
    let n = int_at(s, pos);
    if pos + 4 + n <= s.len() {
        assert forall|i: int| 0 <= i < n implies (#[trigger] crate::model::to_i8(s[pos + 4 + i])) as int
            == twos_complement(s[pos + 4 + i] as int, 1) by {
            numbers_are_read_big_endian(s, pos + 4 + i, 0);
        }
    }
    if pos + 4 + 4 * n <= s.len() {
        assert forall|i: int| 0 <= i < n implies (#[trigger] crate::model::to_i32(be32(s, pos + 4 + 4 * i))) as int
            == int_at(s, pos + 4 + 4 * i) by {
            assert(pos + 4 + 4 * i + 4 <= s.len()) by (nonlinear_arith)
                requires
                    0 <= i < n,
                    pos + 4 + 4 * n <= s.len(),
            ;
            lemma_int_at(s, pos + 4 + 4 * i);
        }
    }
    if pos + 4 + 8 * n <= s.len() {
        assert forall|i: int| 0 <= i < n implies (#[trigger] crate::model::to_i64(be64(s, pos + 4 + 8 * i))) as int
            == long_at(s, pos + 4 + 8 * i) by {
            assert(pos + 4 + 8 * i + 8 <= s.len()) by (nonlinear_arith)
                requires
                    0 <= i < n,
                    pos + 4 + 8 * n <= s.len(),
            ;
            lemma_long_at(s, pos + 4 + 8 * i);
        }
    }
}

proof fn lemma_items_shape(s: Seq<u8>, elem: u8, n: int, pos: int, id: int)
    requires
        0 <= n,
    ensures
        spec_read_items(s, elem, n, pos, id) matches Ok((ts, p, last)) ==> {
            &&& ts.len() == n
            &&& forall|i: int| 0 <= i < ts.len() ==> (#[trigger] ts[i]).name is None
        },
    decreases s.len() - pos, 3int, n,
{
    if n > 0 && id + 1 <= usize::MAX {
        match spec_read_payload(s, elem, pos, id + 1) {
            Ok((value, p, last)) => {
                if p >= pos && p <= s.len() {
                    lemma_items_shape(s, elem, n - 1, p, last);
                    match spec_read_items(s, elem, n - 1, p, last) {
                        Ok((rest, q, last2)) => {
                            let ts = seq![fresh_tag((id + 1) as usize, None, value)] + rest;
                            assert forall|i: int| 0 <= i < ts.len() implies (#[trigger] ts[i]).name is None by {
                                if i > 0 {
                                    assert(ts[i] == rest[i - 1]);
                                }
                            }
                        },
                        Err(_) => {},
                    }
                }
            },
            Err(_) => {},
        }
    }
}

/// A list is read as its element type byte, a big-endian `i32` count, then
/// that many unnamed elements.
pub proof fn lists_are_read_count_first(s: Seq<u8>, pos: int, id: int)
    requires
        0 <= pos,
        pos + 5 <= s.len(),
        int_at(s, pos + 1) >= 0,
    ensures
        spec_read_payload(s, 9, pos, id) matches Ok((v, p, d)) ==> (v matches TagValue::List(ts)
            && ts.len() == int_at(s, pos + 1) && forall|i: int|
            0 <= i < ts.len() ==> (#[trigger] ts[i]).name is None),
{
    lemma_int_at(s, pos + 1);
    lemma_items_shape(s, s[pos], int_at(s, pos + 1), pos + 5, id);
}

} // verus!
