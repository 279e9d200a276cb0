use vstd::prelude::*;

use crate::path::chars_of;

verus! {

/// The lowercase form of a string, as `str::to_lowercase` gives it.
pub uninterp spec fn lowercase_of(s: Seq<char>) -> Seq<char>;

/// Calls `str::to_lowercase`. Trusted: its result depends on the string
/// alone; which characters it maps to which is Unicode's lowercase mapping,
/// named `lowercase_of` and not stated.
#[verifier::external_body]
fn to_lowercase(s: &str) -> (r: String)
    ensures
        r@ == lowercase_of(s@),
{
    s.to_lowercase()
}

/// `a` comes before `b` in the order of byte strings: at the first place
/// where they differ the byte of `a` is smaller, or `a` is a proper prefix of
/// `b`.
pub open spec fn bytes_lt(a: Seq<u8>, b: Seq<u8>) -> bool
    decreases a.len(),
{
    if b.len() == 0 {
        false
    } else if a.len() == 0 {
        true
    } else if a[0] != b[0] {
        a[0] < b[0]
    } else {
        bytes_lt(a.drop_first(), b.drop_first())
    }
}

/// The key by which entries are sorted: the UTF-8 bytes of the lowercase
/// name, which order as `String`s do.
pub open spec fn sort_key(name: Seq<char>) -> Seq<u8> {
    vstd::utf8::encode_utf8(lowercase_of(name))
}

pub open spec fn ends_with(s: Seq<char>, suffix: Seq<char>) -> bool {
    s.len() >= suffix.len() && s.subrange(s.len() - suffix.len(), s.len() as int) == suffix
}

/// Whether a directory entry is listed: hidden entries, whose name starts
/// with a dot, only when they are asked for; and only directories and files
/// whose lowercase name ends in `.dat` or `.nbt`.
pub open spec fn is_listed(entry: (Seq<char>, Seq<char>, bool), show_hidden: bool) -> bool {
    let (name, _, is_dir) = entry;
    &&& show_hidden || !(name.len() > 0 && name[0] == '.')
    &&& is_dir || ends_with(lowercase_of(name), seq!['.', 'd', 'a', 't']) || ends_with(
        lowercase_of(name),
        seq!['.', 'n', 'b', 't'],
    )
}

/// The listed entries, as (name, path), in the order given.
pub open spec fn listed(entries: Seq<(Seq<char>, Seq<char>, bool)>, show_hidden: bool) -> Seq<
    (Seq<char>, Seq<char>),
>
    decreases entries.len(),
{
    if entries.len() == 0 {
        Seq::empty()
    } else {
        let rest = listed(entries.drop_last(), show_hidden);
        let e = entries.last();
        if is_listed(e, show_hidden) {
            rest.push((e.0, e.1))
        } else {
            rest
        }
    }
}

/// `(key, index)` pairs compared by key, then by index.
pub open spec fn key_index_lt(ka: Seq<u8>, ia: int, kb: Seq<u8>, ib: int) -> bool {
    bytes_lt(ka, kb) || (ka == kb && ia < ib)
}

/// `order` lists each index below `n` once, sorted by key and, for equal
/// keys, by index: a stable sort by key.
pub open spec fn is_stable_order(keys: Seq<Seq<u8>>, order: Seq<int>, n: int) -> bool {
    &&& order.len() == n
    &&& forall|i: int| 0 <= i < n ==> 0 <= #[trigger] order[i] < n
    &&& forall|i: int, j: int| 0 <= i < j < n ==> order[i] != order[j]
    &&& forall|i: int, j: int|
        0 <= i < j < n ==> key_index_lt(keys[order[i]], order[i], keys[order[j]], order[j])
}

/// `result` lists `items` in the stable order `order` of their keys.
pub open spec fn sorted_by_order(
    items: Seq<(Seq<char>, Seq<char>)>,
    result: Seq<(Seq<char>, Seq<char>)>,
    order: Seq<int>,
) -> bool {
    &&& is_stable_order(
        Seq::new(items.len(), |k: int| sort_key(items[k].0)),
        order,
        items.len() as int,
    )
    &&& result.len() == items.len()
    &&& forall|i: int| 0 <= i < result.len() ==> #[trigger] result[i] == items[order[i]]
}

/// `result` is `items` sorted stably by their keys.
pub open spec fn stably_sorted(
    items: Seq<(Seq<char>, Seq<char>)>,
    result: Seq<(Seq<char>, Seq<char>)>,
) -> bool {
    exists|order: Seq<int>| #[trigger] sorted_by_order(items, result, order)
}

proof fn lemma_bytes_lt_irreflexive(a: Seq<u8>)
    ensures
        !bytes_lt(a, a),
    decreases a.len(),
{
    if a.len() > 0 {
        lemma_bytes_lt_irreflexive(a.drop_first());
    }
}

proof fn lemma_bytes_lt_total(a: Seq<u8>, b: Seq<u8>)
    ensures
        a != b ==> bytes_lt(a, b) || bytes_lt(b, a),
        !(bytes_lt(a, b) && bytes_lt(b, a)),
    decreases a.len(),
{
    if a.len() > 0 && b.len() > 0 {
        lemma_bytes_lt_total(a.drop_first(), b.drop_first());
        if a[0] == b[0] && a != b {
            assert(a.drop_first() != b.drop_first()) by {
                if a.drop_first() == b.drop_first() {
                    assert(a =~= seq![a[0]] + a.drop_first());
                    assert(b =~= seq![b[0]] + b.drop_first());
                }
            }
        }
    } else if a.len() == 0 && b.len() == 0 {
        assert(a =~= b);
    }
}

proof fn lemma_bytes_lt_transitive(a: Seq<u8>, b: Seq<u8>, c: Seq<u8>)
    requires
        bytes_lt(a, b),
        bytes_lt(b, c),
    ensures
        bytes_lt(a, c),
    decreases a.len(),
{
    if a.len() > 0 && b.len() > 0 && c.len() > 0 {
        if a[0] == b[0] && b[0] == c[0] {
            lemma_bytes_lt_transitive(a.drop_first(), b.drop_first(), c.drop_first());
        }
    }
}

/// `a` is a proper prefix of `b`.
pub open spec fn is_proper_prefix(a: Seq<u8>, b: Seq<u8>) -> bool {
    a.len() < b.len() && b.take(a.len() as int) == a
}

/// `a` and `b` agree before `i`, where `a` has the smaller byte.
pub open spec fn first_difference_below(a: Seq<u8>, b: Seq<u8>, i: int) -> bool {
    &&& 0 <= i < a.len()
    &&& i < b.len()
    &&& a.take(i) == b.take(i)
    &&& a[i] < b[i]
}

/// The order of byte strings is the lexicographic one, as `String`s
/// compare: `a` comes before `b` exactly when `a` is a proper prefix of `b`,
/// or at the first place where they differ the byte of `a` is smaller.
pub proof fn byte_order_is_lexicographic(a: Seq<u8>, b: Seq<u8>)
    ensures
        bytes_lt(a, b) <==> (is_proper_prefix(a, b) || exists|i: int|
            #[trigger] first_difference_below(a, b, i)),
    decreases a.len(),
{
    if a.len() == 0 {
        if b.len() > 0 {
            assert(b.take(0) =~= a);
        }
        assert forall|i: int| !#[trigger] first_difference_below(a, b, i) by {}
    } else if b.len() == 0 {
        assert forall|i: int| !#[trigger] first_difference_below(a, b, i) by {}
    } else if a[0] != b[0] {
        if a[0] < b[0] {
            assert(a.take(0) =~= b.take(0));
            assert(first_difference_below(a, b, 0));
        } else {
            assert forall|i: int| !#[trigger] first_difference_below(a, b, i) by {
                if 0 < i < a.len() && i < b.len() && a.take(i) == b.take(i) {
                    assert(a.take(i)[0] == b.take(i)[0]);
                }
            }
            if is_proper_prefix(a, b) {
                assert(b.take(a.len() as int)[0] == a[0]);
            }
        }
    } else {
        let (a1, b1) = (a.drop_first(), b.drop_first());
        byte_order_is_lexicographic(a1, b1);
        if is_proper_prefix(a1, b1) {
            assert(b.take(a.len() as int) =~= seq![a[0]] + b1.take(a1.len() as int));
            assert(a =~= seq![a[0]] + a1);
        }
        if is_proper_prefix(a, b) {
            assert(b1.take(a1.len() as int) =~= b.take(a.len() as int).drop_first());
        }
        if exists|i: int| #[trigger] first_difference_below(a1, b1, i) {
            let i = choose|i: int| #[trigger] first_difference_below(a1, b1, i);
            assert(a.take(i + 1) =~= seq![a[0]] + a1.take(i));
            assert(b.take(i + 1) =~= seq![b[0]] + b1.take(i));
            assert(first_difference_below(a, b, i + 1));
        }
        if exists|i: int| #[trigger] first_difference_below(a, b, i) {
            let i = choose|i: int| #[trigger] first_difference_below(a, b, i);
            if i == 0 {
                assert(false);
            } else {
                assert(a1.take(i - 1) =~= a.take(i).drop_first());
                assert(b1.take(i - 1) =~= b.take(i).drop_first());
                assert(first_difference_below(a1, b1, i - 1));
            }
        }
    }
}

/// Listed entries come in the order of their keys: no entry comes after
/// one whose key is greater, and a name whose key is a proper prefix of
/// another's, such as `world` beside `world_nether`, comes first.
pub proof fn listed_entries_follow_key_order(
    items: Seq<(Seq<char>, Seq<char>)>,
    result: Seq<(Seq<char>, Seq<char>)>,
)
    requires
        stably_sorted(items, result),
    ensures
        forall|i: int, j: int|
            0 <= i < j < result.len() ==> !bytes_lt(
                sort_key(#[trigger] result[j].0),
                sort_key(#[trigger] result[i].0),
            ),
        forall|i: int, j: int|
            0 <= i < result.len() && 0 <= j < result.len() && is_proper_prefix(
                sort_key(#[trigger] result[i].0),
                sort_key(#[trigger] result[j].0),
            ) ==> i < j,
{
    let order = choose|order: Seq<int>| #[trigger] sorted_by_order(items, result, order);
    let keys = Seq::new(items.len(), |k: int| sort_key(items[k].0));
    assert forall|i: int, j: int| 0 <= i < j < result.len() implies !bytes_lt(
        sort_key(#[trigger] result[j].0),
        sort_key(#[trigger] result[i].0),
    ) by {
        assert(key_index_lt(keys[order[i]], order[i], keys[order[j]], order[j]));
        assert(result[i] == items[order[i]]);
        assert(result[j] == items[order[j]]);
        lemma_bytes_lt_total(keys[order[i]], keys[order[j]]);
        lemma_bytes_lt_irreflexive(keys[order[i]]);
    }
    assert forall|i: int, j: int|
        0 <= i < result.len() && 0 <= j < result.len() && is_proper_prefix(
            sort_key(#[trigger] result[i].0),
            sort_key(#[trigger] result[j].0),
        ) implies i < j by {
        let (ki, kj) = (sort_key(result[i].0), sort_key(result[j].0));
        byte_order_is_lexicographic(ki, kj);
        lemma_bytes_lt_total(ki, kj);
        if j < i {
            assert(key_index_lt(keys[order[j]], order[j], keys[order[i]], order[i]));
            assert(result[i] == items[order[i]]);
            assert(result[j] == items[order[j]]);
        }
    }
}

/// Whether `a` comes before `b` in the order of byte strings.
fn bytes_less(a: &[u8], b: &[u8]) -> (r: bool)
    ensures
        r == bytes_lt(a@, b@),
{
    let mut i: usize = 0;
    proof {
        assert(a@.skip(0) =~= a@);
        assert(b@.skip(0) =~= b@);
    }
    while i < a.len() && i < b.len()
        invariant
            i <= a@.len(),
            i <= b@.len(),
            a@.take(i as int) == b@.take(i as int),
            bytes_lt(a@, b@) == bytes_lt(a@.skip(i as int), b@.skip(i as int)),
        decreases a.len() - i,
    {
        if a[i] != b[i] {
            return a[i] < b[i];
        }
        proof {
            assert(a@.skip(i as int).drop_first() =~= a@.skip(i + 1));
            assert(b@.skip(i as int).drop_first() =~= b@.skip(i + 1));
            assert(a@.take(i + 1) =~= a@.take(i as int).push(a@[i as int]));
            assert(b@.take(i + 1) =~= b@.take(i as int).push(b@[i as int]));
        }
        i = i + 1;
    }
    i < b.len()
}

/// Whether a name ends with `.dat` or `.nbt`.
fn has_nbt_extension(name: &Vec<char>) -> (r: bool)
    ensures
        r == (ends_with(name@, seq!['.', 'd', 'a', 't']) || ends_with(name@, seq!['.', 'n', 'b', 't'])),
{
    let n = name.len();
    if n < 4 {
        return false;
    }
    let dot = name[n - 4] == '.';
    let dat = dot && name[n - 3] == 'd' && name[n - 2] == 'a' && name[n - 1] == 't';
    let nbt = dot && name[n - 3] == 'n' && name[n - 2] == 'b' && name[n - 1] == 't';
    proof {
        let tail = name@.subrange(n - 4, n as int);
        assert(dat <==> tail =~= seq!['.', 'd', 'a', 't']);
        assert(nbt <==> tail =~= seq!['.', 'n', 'b', 't']);
    }
    dat || nbt
}

pub open spec fn entries_view(entries: Seq<(String, String, bool)>) -> Seq<(Seq<char>, Seq<char>, bool)> {
    entries.map_values(|e: (String, String, bool)| (e.0@, e.1@, e.2))
}

pub open spec fn pairs_view(pairs: Seq<(String, String)>) -> Seq<(Seq<char>, Seq<char>)> {
    pairs.map_values(|e: (String, String)| (e.0@, e.1@))
}

proof fn lemma_insert_keeps_order(keys: Seq<Seq<u8>>, ord: Seq<int>, k: int, j: int)
    requires
        0 <= k < keys.len(),
        is_stable_order(keys, ord, k),
        0 <= j <= k,
        forall|t: int| 0 <= t < j ==> !bytes_lt(keys[k], #[trigger] keys[ord[t]]),
        j < k ==> bytes_lt(keys[k], keys[ord[j]]),
    ensures
        is_stable_order(keys, ord.insert(j, k), k + 1),
{
    let o2 = ord.insert(j, k);
    assert forall|a: int, b: int| 0 <= a < b < k + 1 implies key_index_lt(
        keys[o2[a]],
        o2[a],
        keys[o2[b]],
        o2[b],
    ) by {
        if a < j && b < j {
            assert(o2[a] == ord[a] && o2[b] == ord[b]);
        } else if a < j && b == j {
            assert(o2[a] == ord[a]);
            lemma_bytes_lt_total(keys[ord[a]], keys[k]);
            assert(!bytes_lt(keys[k], keys[ord[a]]));
        } else if a < j && b > j {
            assert(o2[a] == ord[a] && o2[b] == ord[b - 1]);
        } else if a == j {
            assert(o2[b] == ord[b - 1]);
            assert(bytes_lt(keys[k], keys[ord[j]]));
            if b - 1 > j {
                assert(key_index_lt(keys[ord[j]], ord[j], keys[ord[b - 1]], ord[b - 1]));
                if bytes_lt(keys[ord[j]], keys[ord[b - 1]]) {
                    lemma_bytes_lt_transitive(keys[k], keys[ord[j]], keys[ord[b - 1]]);
                }
            }
        } else {
            assert(o2[a] == ord[a - 1] && o2[b] == ord[b - 1]);
        }
    }
    assert forall|a: int, b: int| 0 <= a < b < k + 1 implies o2[a] != o2[b] by {
        if a < j && b < j {
        } else if a < j && b == j {
        } else if a < j {
            assert(o2[b] == ord[b - 1]);
        } else if a == j {
            assert(o2[b] == ord[b - 1]);
        } else {
            assert(o2[a] == ord[a - 1] && o2[b] == ord[b - 1]);
        }
    }
    assert forall|i: int| 0 <= i < k + 1 implies 0 <= #[trigger] o2[i] < k + 1 by {
        if i < j {
        } else if i > j {
            assert(o2[i] == ord[i - 1]);
        }
    }
}

/// The directory entries to show, as (name, path): hidden ones only when
/// asked for, only directories and `.dat` and `.nbt` files, sorted stably by
/// their lowercase names.
pub fn list_entries(entries: &Vec<(String, String, bool)>, show_hidden: bool) -> (r: Vec<
    (String, String),
>)
    ensures
        stably_sorted(listed(entries_view(entries@), show_hidden), pairs_view(r@)),
{
    let ghost es = entries_view(entries@);
    let mut kept: Vec<(String, String)> = Vec::new();
    let mut keys: Vec<String> = Vec::new();
    let mut i: usize = 0;
    proof {
        assert(es.take(0) =~= Seq::<(Seq<char>, Seq<char>, bool)>::empty());
        assert(pairs_view(kept@) =~= Seq::<(Seq<char>, Seq<char>)>::empty());
    }
    while i < entries.len()
        invariant
            es == entries_view(entries@),
            i <= entries@.len(),
            pairs_view(kept@) == listed(es.take(i as int), show_hidden),
            keys@.len() == kept@.len(),
            forall|k: int| 0 <= k < keys@.len() ==> #[trigger] keys@[k]@ == lowercase_of(kept@[k].0@),
        decreases entries.len() - i,
    {
        let entry = &entries[i];
        let name = &entry.0;
        let lower = to_lowercase(name.as_str());
        let name_chars = chars_of(name.as_str());
        let lower_chars = chars_of(lower.as_str());
        let visible = show_hidden || !(name_chars.len() > 0 && name_chars[0] == '.');
        let wanted = entry.2 || has_nbt_extension(&lower_chars);
        proof {
            assert(es.take(i + 1).drop_last() =~= es.take(i as int));
            assert(es[i as int] == (entry.0@, entry.1@, entry.2));
        }
        if visible && wanted {
            let ghost before = kept@;
            kept.push((name.clone(), entry.1.clone()));
            keys.push(lower);
            proof {
                assert(pairs_view(kept@) =~= pairs_view(before).push((entry.0@, entry.1@)));
            }
        }
        i = i + 1;
    }
    proof {
        assert(es.take(entries@.len() as int) =~= es);
    }
    let ghost items = pairs_view(kept@);
    let ghost key_seq = Seq::new(items.len(), |k: int| sort_key(items[k].0));
    let n = kept.len();
    let mut order: Vec<usize> = Vec::new();
    let mut k: usize = 0;
    proof {
        assert(order@.map_values(|x: usize| x as int) =~= Seq::<int>::empty());
    }
    while k < n
        invariant
            n == kept@.len(),
            items == pairs_view(kept@),
            key_seq == Seq::new(items.len(), |k: int| sort_key(items[k].0)),
            keys@.len() == n,
            forall|t: int| 0 <= t < n ==> #[trigger] keys@[t]@ == lowercase_of(kept@[t].0@),
            k <= n,
            is_stable_order(key_seq, order@.map_values(|x: usize| x as int), k as int),
        decreases n - k,
    {
        let ghost ord = order@.map_values(|x: usize| x as int);
        let mut j: usize = 0;
        loop
            invariant
                j <= order@.len(),
                order@.len() == k,
                k < n,
                ord == order@.map_values(|x: usize| x as int),
                is_stable_order(key_seq, ord, k as int),
                key_seq == Seq::new(items.len(), |k: int| sort_key(items[k].0)),
                items == pairs_view(kept@),
                n == kept@.len(),
                keys@.len() == n,
                forall|t: int| 0 <= t < n ==> #[trigger] keys@[t]@ == lowercase_of(kept@[t].0@),
                forall|t: int| 0 <= t < j ==> !bytes_lt(key_seq[k as int], #[trigger] key_seq[ord[t]]),
            ensures
                j <= order@.len(),
                forall|t: int| 0 <= t < j ==> !bytes_lt(key_seq[k as int], #[trigger] key_seq[ord[t]]),
                j < order@.len() ==> bytes_lt(key_seq[k as int], key_seq[ord[j as int]]),
            decreases order@.len() - j,
        {
            if j >= order.len() {
                break;
            }
            let other = order[j];
            proof {
                assert(ord[j as int] == other as int);
                assert(0 <= ord[j as int] < k);
            }
            if bytes_less(keys[k].as_str().as_bytes(), keys[other].as_str().as_bytes()) {
                break;
            }
            j = j + 1;
        }
        proof {
            lemma_insert_keeps_order(key_seq, ord, k as int, j as int);
        }
        order.insert(j, k);
        proof {
            assert(order@.map_values(|x: usize| x as int) =~= ord.insert(j as int, k as int));
        }
        k = k + 1;
    }
    let ghost ord = order@.map_values(|x: usize| x as int);
    let mut r: Vec<(String, String)> = Vec::new();
    let mut t: usize = 0;
    while t < n
        invariant
            n == kept@.len(),
            items == pairs_view(kept@),
            ord == order@.map_values(|x: usize| x as int),
            is_stable_order(key_seq, ord, n as int),
            t <= n,
            r@.len() == t,
            forall|s: int| 0 <= s < t ==> #[trigger] pairs_view(r@)[s] == items[ord[s]],
        decreases n - t,
    {
        let o = order[t];
        proof {
            assert(ord[t as int] == o as int);
        }
        let ghost before = r@;
        r.push((kept[o].0.clone(), kept[o].1.clone()));
        proof {
            assert forall|s: int| 0 <= s < t + 1 implies #[trigger] pairs_view(r@)[s] == items[ord[s]] by {
                assert(pairs_view(r@)[s] == (r@[s].0@, r@[s].1@));
                if s < t {
                    assert(r@[s] == before[s]);
                    assert(pairs_view(before)[s] == (before[s].0@, before[s].1@));
                } else {
                    assert(items[o as int] == (kept@[o as int].0@, kept@[o as int].1@));
                }
            }
        }
        t = t + 1;
    }
    proof {
        assert(sorted_by_order(items, pairs_view(r@), ord));
    }
    r
}

} // verus!
