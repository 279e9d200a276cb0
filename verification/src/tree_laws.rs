use vstd::prelude::*;

use crate::nbt::{updated, TagMessage};
use crate::model::{
    find_among, find_tag, ids_list, remove_among, remove_tag, replace_among, replace_found,
    strictly_increasing, tree_ids, TagValue, TagView,
};

verus! {

proof fn lemma_ids_list_from(ts: Seq<TagView>, i: int)
    requires
        0 <= i < ts.len(),
    ensures
        ids_list(ts.subrange(i, ts.len() as int)) == tree_ids(ts[i]) + ids_list(
            ts.subrange(i + 1, ts.len() as int),
        ),
{
    let tail = ts.subrange(i, ts.len() as int);
    assert(tail[0] == ts[i]);
    assert(tail.subrange(1, tail.len() as int) =~= ts.subrange(i + 1, ts.len() as int));
}

proof fn lemma_find_tag_id(t: TagView, id: usize)
    ensures
        find_tag(t, id) matches Some(x) ==> x.id == id,
        find_tag(t, id) is Some <==> tree_ids(t).contains(id),
    decreases t, 0int,
{
    let rest = match t.value {
        TagValue::List(ts) => ids_list(ts),
        TagValue::Compound(ts) => ids_list(ts),
        _ => Seq::empty(),
    };
    assert(tree_ids(t) == seq![t.id] + rest);
    assert(tree_ids(t).contains(id) <==> (t.id == id || rest.contains(id))) by {
        if t.id == id {
            assert(tree_ids(t)[0] == id);
        }
        if rest.contains(id) {
            let k = choose|k: int| 0 <= k < rest.len() && rest[k] == id;
            assert(tree_ids(t)[k + 1] == id);
        }
        if tree_ids(t).contains(id) && t.id != id {
            let k = choose|k: int| 0 <= k < tree_ids(t).len() && tree_ids(t)[k] == id;
            assert(rest[k - 1] == id);
        }
    }
    if t.id != id {
        match t.value {
            TagValue::List(ts) => {
                lemma_find_among_id(ts, 0, id);
                assert(ts.subrange(0, ts.len() as int) =~= ts);
            },
            TagValue::Compound(ts) => {
                lemma_find_among_id(ts, 0, id);
                assert(ts.subrange(0, ts.len() as int) =~= ts);
            },
            _ => {},
        }
    }
}

proof fn lemma_find_among_id(ts: Seq<TagView>, i: int, id: usize)
    requires
        0 <= i <= ts.len(),
    ensures
        find_among(ts, i, id) matches Some(x) ==> x.id == id,
        find_among(ts, i, id) is Some <==> ids_list(ts.subrange(i, ts.len() as int)).contains(id),
    decreases ts, ts.len() - i,
{
    if i < ts.len() {
        lemma_find_tag_id(ts[i], id);
        lemma_find_among_id(ts, i + 1, id);
        lemma_ids_list_from(ts, i);
        let a = tree_ids(ts[i]);
        let b = ids_list(ts.subrange(i + 1, ts.len() as int));
        assert((a + b).contains(id) <==> (a.contains(id) || b.contains(id))) by {
            if a.contains(id) {
                let k = choose|k: int| 0 <= k < a.len() && a[k] == id;
                assert((a + b)[k] == id);
            }
            if b.contains(id) {
                let k = choose|k: int| 0 <= k < b.len() && b[k] == id;
                assert((a + b)[a.len() + k] == id);
            }
            if (a + b).contains(id) {
                let k = choose|k: int| 0 <= k < (a + b).len() && (a + b)[k] == id;
                if k < a.len() {
                    assert(a[k] == id);
                } else {
                    assert(b[k - a.len()] == id);
                }
            }
        }
    } else {
        assert(ids_list(ts.subrange(i, ts.len() as int)) =~= Seq::<usize>::empty());
    }
}

/// `find` gives back a tag with the identifier asked for, and it finds one
/// exactly when some tag of the tree, in a list or a compound at any depth,
/// has that identifier.
pub proof fn find_gives_the_tag_with_that_id(t: TagView, id: usize)
    ensures
        find_tag(t, id) matches Some(x) ==> x.id == id,
        find_tag(t, id) is Some <==> tree_ids(t).contains(id),
{
    lemma_find_tag_id(t, id);
}

proof fn lemma_replace_then_find(t: TagView, id: usize, new: TagView)
    requires
        new.id == id,
        find_tag(t, id) is Some,
    ensures
        find_tag(replace_found(t, id, new), id) == Some(new),
    decreases t, 0int,
{
    if t.id != id {
        match t.value {
            TagValue::List(ts) => {
                lemma_replace_among_then_find(ts, 0, id, new);
            },
            TagValue::Compound(ts) => {
                lemma_replace_among_then_find(ts, 0, id, new);
            },
            _ => {},
        }
    }
}

proof fn lemma_replace_among_then_find(ts: Seq<TagView>, i: int, id: usize, new: TagView)
    requires
        new.id == id,
        0 <= i,
        find_among(ts, i, id) is Some,
    ensures
        replace_among(ts, i, id, new).len() == ts.len(),
        forall|k: int| 0 <= k < i ==> #[trigger] replace_among(ts, i, id, new)[k] == ts[k],
        find_among(replace_among(ts, i, id, new), i, id) == Some(new),
    decreases ts, ts.len() - i,
{
    if i < ts.len() {
        if find_tag(ts[i], id) is Some {
            lemma_replace_then_find(ts[i], id, new);
        } else {
            lemma_replace_among_then_find(ts, i + 1, id, new);
            let r = replace_among(ts, i + 1, id, new);
            assert(r[i] == ts[i]);
        }
    }
}

/// What is written through `find_mut` is what `find` gives back: after the
/// tag with identifier `id` is replaced by one with the same identifier,
/// looking `id` up gives the new tag.
pub proof fn find_after_write(t: TagView, id: usize, new: TagView)
    requires
        new.id == id,
        find_tag(t, id) is Some,
    ensures
        find_tag(replace_found(t, id, new), id) == Some(new),
{
    lemma_replace_then_find(t, id, new);
}

proof fn lemma_remove_absent(t: TagView, id: usize)
    requires
        !tree_ids(t).contains(id),
    ensures
        remove_tag(t, id) == t,
    decreases t, 0int,
{
    match t.value {
        TagValue::Compound(ts) => {
            assert(tree_ids(t) == seq![t.id] + ids_list(ts));
            assert forall|k: int| 0 <= k < ids_list(ts).len() implies ids_list(ts)[k] != id by {
                assert(tree_ids(t)[k + 1] == ids_list(ts)[k]);
            }
            assert(ts.subrange(0, ts.len() as int) =~= ts);
            lemma_remove_among_absent(ts, 0, id);
            assert(remove_among(ts, 0, id) =~= ts);
        },
        _ => {},
    }
}

proof fn lemma_remove_among_absent(ts: Seq<TagView>, i: int, id: usize)
    requires
        0 <= i <= ts.len(),
        !ids_list(ts.subrange(i, ts.len() as int)).contains(id),
    ensures
        remove_among(ts, i, id) =~= ts.subrange(i, ts.len() as int),
    decreases ts, ts.len() - i,
{
    if i < ts.len() {
        lemma_ids_list_from(ts, i);
        let a = tree_ids(ts[i]);
        let b = ids_list(ts.subrange(i + 1, ts.len() as int));
        assert(a[0] == ts[i].id);
        assert((a + b)[0] == ts[i].id);
        assert(!a.contains(id)) by {
            if a.contains(id) {
                let k = choose|k: int| 0 <= k < a.len() && a[k] == id;
                assert((a + b)[k] == id);
            }
        }
        assert(!b.contains(id)) by {
            if b.contains(id) {
                let k = choose|k: int| 0 <= k < b.len() && b[k] == id;
                assert((a + b)[a.len() + k] == id);
            }
        }
        lemma_remove_absent(ts[i], id);
        lemma_remove_among_absent(ts, i + 1, id);
    }
}

/// Removing an identifier that no tag of the tree has changes nothing.
pub proof fn remove_of_absent_id_changes_nothing(t: TagView, id: usize)
    requires
        !tree_ids(t).contains(id),
    ensures
        remove_tag(t, id) == t,
{
    lemma_remove_absent(t, id);
}

/// Some entry reachable from `t` through compounds alone, below `t`, has
/// identifier `id`.
pub open spec fn compound_has(t: TagView, id: usize) -> bool
    decreases t, 0int,
{
    match t.value {
        TagValue::Compound(ts) => entries_have(ts, 0, id),
        _ => false,
    }
}

/// Some entry of `ts[i..]`, or one reachable from them through compounds
/// alone, has identifier `id`.
pub open spec fn entries_have(ts: Seq<TagView>, i: int, id: usize) -> bool
    decreases ts, ts.len() - i,
{
    if 0 <= i < ts.len() {
        ts[i].id == id || compound_has(ts[i], id) || entries_have(ts, i + 1, id)
    } else {
        false
    }
}

proof fn lemma_contains_concat(a: Seq<usize>, b: Seq<usize>, x: usize)
    ensures
        (a + b).contains(x) <==> (a.contains(x) || b.contains(x)),
{
    if a.contains(x) {
        let k = choose|k: int| 0 <= k < a.len() && a[k] == x;
        assert((a + b)[k] == x);
    }
    if b.contains(x) {
        let k = choose|k: int| 0 <= k < b.len() && b[k] == x;
        assert((a + b)[a.len() + k] == x);
    }
    if (a + b).contains(x) {
        let k = choose|k: int| 0 <= k < (a + b).len() && (a + b)[k] == x;
        if k < a.len() {
            assert(a[k] == x);
        } else {
            assert(b[k - a.len()] == x);
        }
    }
}

proof fn lemma_increasing_split(a: Seq<usize>, b: Seq<usize>)
    requires
        strictly_increasing(a + b),
    ensures
        strictly_increasing(a),
        strictly_increasing(b),
        forall|x: usize| a.contains(x) ==> !b.contains(x),
{
    assert forall|i: int, j: int| 0 <= i < j < a.len() implies a[i] < a[j] by {
        assert((a + b)[i] == a[i] && (a + b)[j] == a[j]);
    }
    assert forall|i: int, j: int| 0 <= i < j < b.len() implies b[i] < b[j] by {
        assert((a + b)[a.len() + i] == b[i] && (a + b)[a.len() + j] == b[j]);
    }
    assert forall|x: usize| a.contains(x) implies !b.contains(x) by {
        let i = choose|i: int| 0 <= i < a.len() && a[i] == x;
        if b.contains(x) {
            let j = choose|j: int| 0 <= j < b.len() && b[j] == x;
            assert((a + b)[i] == x && (a + b)[a.len() + j] == x);
        }
    }
}

pub(crate) proof fn lemma_ids_list_cons(x: TagView, rest: Seq<TagView>)
    ensures
        ids_list(seq![x] + rest) == tree_ids(x) + ids_list(rest),
{
    let ts = seq![x] + rest;
    assert(ts[0] == x);
    assert(ts.subrange(1, ts.len() as int) =~= rest);
}

proof fn lemma_tree_ids_split(t: TagView)
    ensures
        tree_ids(t) == seq![t.id] + match t.value {
            TagValue::List(ts) => ids_list(ts),
            TagValue::Compound(ts) => ids_list(ts),
            _ => Seq::<usize>::empty(),
        },
{
}

proof fn lemma_compound_has_in_ids(t: TagView, id: usize)
    requires
        compound_has(t, id),
    ensures
        tree_ids(t).contains(id),
    decreases t, 0int,
{
    match t.value {
        TagValue::Compound(ts) => {
            lemma_entries_have_in_ids(ts, 0, id);
            assert(ts.subrange(0, ts.len() as int) =~= ts);
            lemma_contains_concat(seq![t.id], ids_list(ts), id);
        },
        _ => {},
    }
}

proof fn lemma_entries_have_in_ids(ts: Seq<TagView>, i: int, id: usize)
    requires
        0 <= i <= ts.len(),
        entries_have(ts, i, id),
    ensures
        ids_list(ts.subrange(i, ts.len() as int)).contains(id),
    decreases ts, ts.len() - i,
{
    lemma_ids_list_from(ts, i);
    let a = tree_ids(ts[i]);
    let b = ids_list(ts.subrange(i + 1, ts.len() as int));
    lemma_contains_concat(a, b, id);
    if ts[i].id == id {
        lemma_tree_ids_split(ts[i]);
        assert(a[0] == id);
    } else if compound_has(ts[i], id) {
        lemma_compound_has_in_ids(ts[i], id);
    } else {
        lemma_entries_have_in_ids(ts, i + 1, id);
    }
}

proof fn lemma_remove_ids_subset(t: TagView, id: usize, x: usize)
    ensures
        tree_ids(remove_tag(t, id)).contains(x) ==> tree_ids(t).contains(x),
    decreases t, 0int,
{
    match t.value {
        TagValue::Compound(ts) => {
            lemma_remove_among_ids_subset(ts, 0, id, x);
            assert(ts.subrange(0, ts.len() as int) =~= ts);
            lemma_tree_ids_split(remove_tag(t, id));
            lemma_contains_concat(seq![t.id], ids_list(remove_among(ts, 0, id)), x);
            lemma_contains_concat(seq![t.id], ids_list(ts), x);
        },
        _ => {},
    }
}

proof fn lemma_remove_among_ids_subset(ts: Seq<TagView>, i: int, id: usize, x: usize)
    requires
        0 <= i <= ts.len(),
    ensures
        ids_list(remove_among(ts, i, id)).contains(x) ==> ids_list(
            ts.subrange(i, ts.len() as int),
        ).contains(x),
    decreases ts, ts.len() - i,
{
    if i < ts.len() {
        lemma_ids_list_from(ts, i);
        lemma_contains_concat(tree_ids(ts[i]), ids_list(ts.subrange(i + 1, ts.len() as int)), x);
        if ts[i].id != id {
            lemma_remove_ids_subset(ts[i], id, x);
            lemma_remove_among_ids_subset(ts, i + 1, id, x);
            lemma_ids_list_cons(remove_tag(ts[i], id), remove_among(ts, i + 1, id));
            lemma_contains_concat(
                tree_ids(remove_tag(ts[i], id)),
                ids_list(remove_among(ts, i + 1, id)),
                x,
            );
        }
    } else {
        assert(ids_list(Seq::<TagView>::empty()) =~= Seq::<usize>::empty());
    }
}

proof fn lemma_remove_gone(t: TagView, id: usize)
    requires
        strictly_increasing(tree_ids(t)),
        compound_has(t, id),
    ensures
        !tree_ids(remove_tag(t, id)).contains(id),
    decreases t, 0int,
{
    match t.value {
        TagValue::Compound(ts) => {
            lemma_tree_ids_split(t);
            lemma_increasing_split(seq![t.id], ids_list(ts));
            assert(ts.subrange(0, ts.len() as int) =~= ts);
            lemma_entries_have_in_ids(ts, 0, id);
            assert(seq![t.id].contains(t.id)) by {
                assert(seq![t.id][0] == t.id);
            }
            lemma_remove_among_gone(ts, 0, id);
            lemma_tree_ids_split(remove_tag(t, id));
            lemma_contains_concat(seq![t.id], ids_list(remove_among(ts, 0, id)), id);
            assert(!seq![t.id].contains(id)) by {
                if seq![t.id].contains(id) {
                    assert(t.id == id);
                }
            }
        },
        _ => {},
    }
}

proof fn lemma_remove_among_gone(ts: Seq<TagView>, i: int, id: usize)
    requires
        0 <= i <= ts.len(),
        strictly_increasing(ids_list(ts.subrange(i, ts.len() as int))),
        entries_have(ts, i, id),
    ensures
        !ids_list(remove_among(ts, i, id)).contains(id),
    decreases ts, ts.len() - i,
{
    lemma_ids_list_from(ts, i);
    let a = tree_ids(ts[i]);
    let b = ids_list(ts.subrange(i + 1, ts.len() as int));
    lemma_increasing_split(a, b);
    lemma_tree_ids_split(ts[i]);
    assert(a.contains(ts[i].id)) by {
        assert(a[0] == ts[i].id);
    }
    if ts[i].id == id {
        assert(remove_among(ts, i, id) == ts.subrange(i + 1, ts.len() as int));
    } else {
        let r = remove_tag(ts[i], id);
        lemma_ids_list_cons(r, remove_among(ts, i + 1, id));
        lemma_contains_concat(tree_ids(r), ids_list(remove_among(ts, i + 1, id)), id);
        lemma_remove_among_ids_subset(ts, i + 1, id, id);
        lemma_remove_ids_subset(ts[i], id, id);
        if compound_has(ts[i], id) {
            lemma_remove_gone(ts[i], id);
            lemma_compound_has_in_ids(ts[i], id);
        } else {
            lemma_remove_among_gone(ts, i + 1, id);
            lemma_entries_have_in_ids(ts, i + 1, id);
        }
    }
}

/// In a tree whose identifiers are distinct and grow in pre-order, as the
/// reader builds them, removing an identifier that some entry reachable
/// through compounds has leaves no tag with that identifier.
pub proof fn removed_id_is_gone(t: TagView, id: usize)
    requires
        strictly_increasing(tree_ids(t)),
        compound_has(t, id),
    ensures
        !tree_ids(remove_tag(t, id)).contains(id),
{
    lemma_remove_gone(t, id);
}

/// Giving a tag the same message twice leaves it as giving it once does.
pub proof fn update_twice_is_update_once(v: TagView, message: TagMessage)
    ensures
        updated(updated(v, message), message) == updated(v, message),
{
}

proof fn lemma_replace_with_found(t: TagView, id: usize)
    requires
        find_tag(t, id) is Some,
    ensures
        replace_found(t, id, find_tag(t, id).unwrap()) == t,
    decreases t, 0int,
{
    if t.id != id {
        match t.value {
            TagValue::List(ts) => {
                lemma_replace_among_with_found(ts, 0, id);
            },
            TagValue::Compound(ts) => {
                lemma_replace_among_with_found(ts, 0, id);
            },
            _ => {},
        }
    }
}

proof fn lemma_replace_among_with_found(ts: Seq<TagView>, i: int, id: usize)
    requires
        0 <= i,
        find_among(ts, i, id) is Some,
    ensures
        replace_among(ts, i, id, find_among(ts, i, id).unwrap()) == ts,
    decreases ts, ts.len() - i,
{
    if i < ts.len() {
        if find_tag(ts[i], id) is Some {
            lemma_replace_with_found(ts[i], id);
            assert(ts.update(i, ts[i]) =~= ts);
        } else {
            lemma_replace_among_with_found(ts, i + 1, id);
        }
    }
}

/// Putting back through `find_mut` the tag it found changes nothing: the
/// tree is as it was when nothing is written through it.
pub proof fn find_mut_without_write_changes_nothing(t: TagView, id: usize)
    ensures
        find_tag(t, id) matches Some(x) ==> replace_found(t, id, x) == t,
{
    if find_tag(t, id) is Some {
        lemma_replace_with_found(t, id);
    }
}

} // verus!
