//! Ordered maps from handles, where `vstd` leaves something to say.

use crate::sys::SysHandle;
use std::collections::BTreeMap;
use vstd::prelude::*;
use vstd::std_specs::cmp::OrdSpec;
use vstd::std_specs::iter::IteratorSpec;

verus! {

/// `list` is `handles` in ascending order.
pub open spec fn lists(list: Seq<SysHandle>, handles: Set<SysHandle>) -> bool {
    &&& list.to_set() == handles
    &&& forall|i: int, j: int| 0 <= i < j < list.len() ==> list[i] < list[j]
}

/// The handles in ascending order.
pub open spec fn ascending(handles: Set<SysHandle>) -> Seq<SysHandle> {
    choose|list: Seq<SysHandle>| lists(list, handles)
}

/// There is only one list of the same handles in ascending order.
pub(crate) proof fn lemma_listing_unique(a: Seq<SysHandle>, b: Seq<SysHandle>, handles: Set<SysHandle>)
    requires
        lists(a, handles),
        lists(b, handles),
    ensures
        a == b,
    decreases a.len(),
{
    if a.len() == 0 {
        if b.len() > 0 {
            assert(b.to_set().contains(b[0]));
            assert(a.to_set().contains(b[0]));
        }
        assert(a =~= b);
    } else {
        assert(a.to_set().contains(a.last()));
        assert(b.to_set().contains(a.last()));
        let k = choose|k: int| 0 <= k < b.len() && b[k] == a.last();
        assert(b.to_set().contains(b.last()));
        assert(a.to_set().contains(b.last()));
        let m = choose|m: int| 0 <= m < a.len() && a[m] == b.last();
        assert(a.last() == b.last());
        lemma_drop_last(a, handles);
        lemma_drop_last(b, handles);
        lemma_listing_unique(a.drop_last(), b.drop_last(), handles.remove(a.last()));
        assert(a =~= a.drop_last().push(a.last()));
        assert(b =~= b.drop_last().push(b.last()));
    }
}

/// The list without its last handle lists the other handles.
proof fn lemma_drop_last(list: Seq<SysHandle>, handles: Set<SysHandle>)
    requires
        list.len() > 0,
        lists(list, handles),
    ensures
        lists(list.drop_last(), handles.remove(list.last())),
{
    assert forall|h: SysHandle| handles.remove(list.last()).contains(h) implies #[trigger] list.drop_last().to_set().contains(
        h,
    ) by {
        assert(list.to_set().contains(h));
        let k = choose|k: int| 0 <= k < list.len() && list[k] == h;
        assert(list.drop_last()[k] == h);
    }
    assert forall|h: SysHandle| #[trigger] list.drop_last().to_set().contains(h) implies handles.remove(
        list.last(),
    ).contains(h) by {
        let k = choose|k: int| 0 <= k < list.drop_last().len() && list.drop_last()[k] == h;
        assert(list[k] == h);
        assert(list.to_set().contains(h));
    }
    assert(list.drop_last().to_set() =~= handles.remove(list.last()));
}

/// What lists the handles is the list of them.
pub proof fn lemma_ascending(list: Seq<SysHandle>, handles: Set<SysHandle>)
    requires
        lists(list, handles),
    ensures
        ascending(handles) == list,
{
    lemma_listing_unique(list, ascending(handles), handles);
}

/// A list of handles in ascending order names each of them, and each once.
pub(crate) proof fn lemma_listing_keys(list: Seq<SysHandle>, handles: Set<SysHandle>)
    requires
        lists(list, handles),
    ensures
        list.no_duplicates(),
        forall|i: int| 0 <= i < list.len() ==> handles.contains(#[trigger] list[i]),
{
    assert forall|i: int| 0 <= i < list.len() implies handles.contains(#[trigger] list[i]) by {
        assert(list.to_set().contains(list[i]));
    }
}

/// Picking from a list of handles in ascending order gives the list of those that
/// are picked.
pub(crate) proof fn lemma_filter_lists(
    list: Seq<SysHandle>,
    handles: Set<SysHandle>,
    pick: spec_fn(SysHandle) -> bool,
)
    requires
        lists(list, handles),
    ensures
        lists(list.filter(pick), handles.filter(pick)),
    decreases list.len(),
{
    reveal(Seq::filter);
    let picked = list.filter(pick);
    if list.len() == 0 {
        assert(handles =~= Set::empty()) by {
            assert forall|h: SysHandle| !handles.contains(h) by {
                assert(list.to_set().contains(h) == handles.contains(h));
            }
        }
        assert(picked.to_set() =~= handles.filter(pick));
    } else {
        let last = list.last();
        let rest = list.drop_last().filter(pick);
        lemma_drop_last(list, handles);
        lemma_filter_lists(list.drop_last(), handles.remove(last), pick);
        assert(handles.contains(last)) by {
            assert(list.to_set().contains(last));
        }
        if pick(last) {
            assert forall|i: int| 0 <= i < rest.len() implies rest[i] < last by {
                assert(rest.to_set().contains(rest[i]));
                assert(list.drop_last().to_set().contains(rest[i]));
                let k = choose|k: int|
                    0 <= k < list.drop_last().len() && list.drop_last()[k] == rest[i];
                assert(list[k] < list[list.len() - 1]);
            }
            assert(picked =~= rest.push(last));
            assert forall|h: SysHandle| handles.filter(pick).contains(h) implies #[trigger] picked.to_set().contains(
                h,
            ) by {
                if h == last {
                    assert(picked[picked.len() - 1] == h);
                } else {
                    assert(rest.to_set().contains(h));
                    let k = choose|k: int| 0 <= k < rest.len() && rest[k] == h;
                    assert(picked[k] == h);
                }
            }
            assert forall|h: SysHandle| #[trigger] picked.to_set().contains(h) implies handles.filter(
                pick,
            ).contains(h) by {
                let k = choose|k: int| 0 <= k < picked.len() && picked[k] == h;
                if k < rest.len() {
                    assert(rest.to_set().contains(rest[k]));
                }
            }
            assert(picked.to_set() =~= handles.filter(pick));
        } else {
            assert(handles.remove(last).filter(pick) =~= handles.filter(pick));
        }
    }
}

/// The keys of a map, in ascending order.
pub(crate) fn sorted_keys<V>(map: &BTreeMap<SysHandle, V>) -> (keys: Vec<SysHandle>)
    ensures
        keys@ == ascending(map@.dom()),
        lists(keys@, map@.dom()),
{
    broadcast use vstd::std_specs::btree::group_btree_axioms;

    let mut keys: Vec<SysHandle> = Vec::new();
    let entries = map.iter();
    let ghost listed = entries.remaining();
    let ghost order = listed.map_values(|entry: (&SysHandle, &V)| *entry.0);
    assert(vstd::std_specs::btree::increasing_seq(order));
    for entry in it: entries
        invariant
            it.seq() == listed,
            keys@.len() == it.index(),
            forall|i: int| 0 <= i < keys@.len() ==> keys@[i] == *it.seq()[i].0,
    {
        keys.push(*entry.0);
    }
    proof {
        assert(keys@ =~= order);
        assert forall|i: int, j: int| 0 <= i < j < keys@.len() implies keys@[i] < keys@[j] by {
            assert(order[i].cmp_spec(&order[j]) is Less);
        }
        assert forall|h: SysHandle| map@.contains_key(h) implies #[trigger] keys@.to_set().contains(h) by {
            assert(listed.contains((&h, &map@[h])));
            let k = choose|k: int| 0 <= k < listed.len() && listed[k] == (&h, &map@[h]);
            assert(keys@[k] == h);
        }
        assert forall|h: SysHandle| #[trigger] keys@.to_set().contains(h) implies map@.contains_key(h) by {
            let k = choose|k: int| 0 <= k < keys@.len() && keys@[k] == h;
            assert(map@.contains_key(*listed[k].0));
        }
        assert(keys@.to_set() =~= map@.dom());
        lemma_ascending(keys@, map@.dom());
    }
    keys
}

/// Calls `BTreeMap::get_mut`: a reference to the value that `map` has for `key`,
/// through which the value can be changed in place, or nothing if there is none.
#[verifier::external_body]
pub(crate) fn value_mut<V>(map: &mut BTreeMap<SysHandle, V>, key: SysHandle) -> (value: Option<&mut V>)
    ensures
        match value {
            Some(value) => old(map)@.contains_key(key) && *value == old(map)@[key] && final(map)@
                == old(map)@.insert(key, *final(value)),
            None => !old(map)@.contains_key(key) && final(map)@ == old(map)@,
        },
{
    map.get_mut(&key)
}

} // verus!
