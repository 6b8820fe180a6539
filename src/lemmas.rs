//! What holds of batches of updates across calls: repeated presence toggles,
//! prefix matching, recolors without a match, and what a reconciled file
//! reads back as.

use vstd::prelude::*;
use crate::text::first_at;
use crate::listfile::{lemma_text_round_trip, list_entries, list_text, storable, COLON};
use crate::reconcile::{
    apply_all, apply_batch, apply_update, batch_updates, entry_matches, first_field,
    first_match, has_match, is_prefix, is_recolor, match_index, match_key,
};

verus! {

proof fn lemma_first_colon_exists(e: Seq<u8>)
    ensures
        exists|k: int| first_at(e, COLON, k),
    decreases e.len(),
{
    if e.len() == 0 {
        assert(first_at(e, COLON, 0));
    } else {
        let d = e.drop_last();
        lemma_first_colon_exists(d);
        let k = choose|k: int| first_at(d, COLON, k);
        assert forall|j: int| 0 <= j < k implies #[trigger] e[j] != COLON by {
            assert(d[j] == e[j]);
        }
        if k < d.len() {
            assert(d[k] == e[k]);
            assert(first_at(e, COLON, k));
        } else if e.last() == COLON {
            assert(first_at(e, COLON, d.len() as int));
        } else {
            assert(first_at(e, COLON, e.len() as int));
        }
    }
}

/// Every entry answers to itself as a key.
pub proof fn lemma_self_match(e: Seq<u8>)
    ensures
        entry_matches(e, e),
{
    lemma_first_colon_exists(e);
    let k = choose|k: int| first_at(e, COLON, k);
    assert(first_field(e) == e.take(k));
    assert(e.take(first_field(e).len() as int) == first_field(e));
}

proof fn lemma_toggles_grow(list: Seq<Seq<u8>>, subs: Seq<Seq<u8>>)
    requires
        forall|j: int| 0 <= j < subs.len() ==> !is_recolor(#[trigger] subs[j]),
    ensures
        apply_all(list, subs, true).len() >= list.len(),
        apply_all(list, subs, true).take(list.len() as int) == list,
        forall|j: int|
            0 <= j < subs.len() ==> has_match(apply_all(list, subs, true), #[trigger] subs[j]),
    decreases subs.len(),
{
    if subs.len() > 0 {
        let init = subs.drop_last();
        let s = subs.last();
        assert(forall|j: int| 0 <= j < init.len() ==> #[trigger] init[j] == subs[j]);
        lemma_toggles_grow(list, init);
        let m = apply_all(list, init, true);
        assert(s == subs[subs.len() - 1]);
        assert(match_key(s) == s);
        if !has_match(m, s) {
            let m2 = m.push(s);
            assert(apply_all(list, subs, true) == m2);
            assert(m2.take(list.len() as int) =~= m.take(list.len() as int));
            lemma_self_match(s);
            assert(m2[m.len() as int] == s);
            assert(has_match(m2, s));
            assert forall|j: int| 0 <= j < init.len() implies has_match(m2, #[trigger] init[j]) by {
                let w = choose|i: int| 0 <= i < m.len() && entry_matches(#[trigger] m[i], init[j]);
                assert(m2[w] == m[w]);
            }
        }
        assert forall|j: int| 0 <= j < subs.len() implies has_match(
            apply_all(list, subs, true),
            #[trigger] subs[j],
        ) by {
            if j < init.len() {
                assert(subs[j] == init[j]);
            }
        }
    }
}

proof fn lemma_toggles_settled(list: Seq<Seq<u8>>, subs: Seq<Seq<u8>>)
    requires
        forall|j: int| 0 <= j < subs.len() ==> !is_recolor(#[trigger] subs[j]),
        forall|j: int| 0 <= j < subs.len() ==> has_match(list, #[trigger] subs[j]),
    ensures
        apply_all(list, subs, true) == list,
    decreases subs.len(),
{
    if subs.len() > 0 {
        let init = subs.drop_last();
        assert(forall|j: int| 0 <= j < init.len() ==> #[trigger] init[j] == subs[j]);
        lemma_toggles_settled(list, init);
        let s = subs.last();
        assert(s == subs[subs.len() - 1]);
        assert(match_key(s) == s);
    }
}

/// Applying a batch of presence toggles with `active` set a second time
/// changes nothing: each signature already has its entry, and none is added
/// twice.
pub proof fn lemma_toggle_idempotent(list: Seq<Seq<u8>>, batch: Seq<u8>)
    requires
        forall|j: int|
            0 <= j < batch_updates(batch).len() ==> !is_recolor(#[trigger] batch_updates(batch)[j]),
    ensures
        apply_batch(apply_batch(list, batch, true), batch, true) == apply_batch(list, batch, true),
{
    let subs = batch_updates(batch);
    lemma_toggles_grow(list, subs);
    lemma_toggles_settled(apply_all(list, subs, true), subs);
}

/// A stored entry whose first field is a prefix of the update's key is
/// matched, though the key is longer: the first such entry is replaced by a
/// recolor, removed by a toggle with `active` false, and kept by one with
/// `active` set.
pub proof fn lemma_prefix_match(list: Seq<Seq<u8>>, i: int, s: Seq<u8>, active: bool)
    requires
        0 <= i < list.len(),
        is_prefix(first_field(list[i]), match_key(s)),
        forall|j: int| 0 <= j < i ==> !entry_matches(#[trigger] list[j], match_key(s)),
    ensures
        apply_update(list, s, active) == if is_recolor(s) {
            list.update(i, s)
        } else if active {
            list
        } else {
            list.remove(i)
        },
{
    let key = match_key(s);
    assert(first_match(list, key, i));
    assert(has_match(list, key));
    let m = match_index(list, key);
    assert(m == i) by {
        if m < i {
            assert(entry_matches(list[m], key));
        } else if m > i {
            assert(!entry_matches(list[i], key));
        }
    }
}

/// An entry with no `:` is one field, so it answers to every key that it is
/// a prefix of.
pub proof fn lemma_plain_entry_matches(e: Seq<u8>, key: Seq<u8>)
    requires
        !e.contains(COLON),
        is_prefix(e, key),
    ensures
        entry_matches(e, key),
{
    assert(first_at(e, COLON, e.len() as int));
    let k = choose|k: int| first_at(e, COLON, k);
    assert(k == e.len()) by {
        if k < e.len() {
            assert(e.contains(COLON));
        }
    }
    assert(first_field(e) =~= e);
}

/// A recolor whose key matches no entry leaves the list as it was.
pub proof fn lemma_recolor_miss(list: Seq<Seq<u8>>, s: Seq<u8>, active: bool)
    requires
        is_recolor(s),
        !has_match(list, match_key(s)),
    ensures
        apply_update(list, s, active) == list,
{
}

/// Reading back the file that a reconciliation wrote gives the entries that
/// the batch left in memory, field for field, where each of them survives
/// the line format.
pub proof fn lemma_reconcile_round_trip(content: Seq<u8>, batch: Seq<u8>, active: bool)
    requires
        storable(apply_batch(list_entries(content), batch, active)),
    ensures
        list_entries(list_text(apply_batch(list_entries(content), batch, active))) == apply_batch(
            list_entries(content),
            batch,
            active,
        ),
{
    lemma_text_round_trip(apply_batch(list_entries(content), batch, active));
}

} // verus!
