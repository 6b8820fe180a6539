//! Batched updates of an annotation list: presence toggles and recolors,
//! matched against the stored entries by prefix.

use vstd::prelude::*;
use crate::listfile::{list_entries, list_text, AnnotationList, COLON, NEWLINE};
use crate::text::{before_first, find_byte, split, split_on, views};
use vstd::slice::slice_to_vec;

verus! {

pub const SEMICOLON: u8 = 59;

/// The separator `;;` starts at `i` in `s`.
pub open spec fn sep_at(s: Seq<u8>, i: int) -> bool {
    0 <= i && i + 1 < s.len() && s[i] == SEMICOLON && s[i + 1] == SEMICOLON
}

/// `s` splits at `;;` into exactly two parts, the first ending at `f`: `f`
/// is the first separator, and none follows the one at `f`.
pub open spec fn recolor_at(s: Seq<u8>, f: int) -> bool {
    &&& sep_at(s, f)
    &&& forall|j: int| 0 <= j < f ==> !#[trigger] sep_at(s, j)
    &&& forall|j: int| f + 2 <= j ==> !#[trigger] sep_at(s, j)
}

/// The sub-update `s` is a recolor: it carries a color after its match key.
pub open spec fn is_recolor(s: Seq<u8>) -> bool {
    exists|f: int| recolor_at(s, f)
}

/// The key that the sub-update `s` is matched by: the part before `;;` for
/// a recolor, else all of `s`.
pub open spec fn match_key(s: Seq<u8>) -> Seq<u8> {
    if is_recolor(s) {
        s.take(choose|f: int| recolor_at(s, f))
    } else {
        s
    }
}

/// The first field of entry `e`: what precedes its first `:`.
pub open spec fn first_field(e: Seq<u8>) -> Seq<u8> {
    before_first(e, COLON)
}

/// `a` is a prefix of `b` (equal included).
pub open spec fn is_prefix(a: Seq<u8>, b: Seq<u8>) -> bool {
    a.len() <= b.len() && b.take(a.len() as int) == a
}

/// Entry `e` answers to `key`: its first field is a prefix of the key.
pub open spec fn entry_matches(e: Seq<u8>, key: Seq<u8>) -> bool {
    is_prefix(first_field(e), key)
}

/// `i` is the first entry of `list` that answers to `key`.
pub open spec fn first_match(list: Seq<Seq<u8>>, key: Seq<u8>, i: int) -> bool {
    &&& 0 <= i < list.len()
    &&& entry_matches(list[i], key)
    &&& forall|j: int| 0 <= j < i ==> !entry_matches(#[trigger] list[j], key)
}

/// Some entry of `list` answers to `key`.
pub open spec fn has_match(list: Seq<Seq<u8>>, key: Seq<u8>) -> bool {
    exists|i: int| 0 <= i < list.len() && entry_matches(#[trigger] list[i], key)
}

/// The first entry of `list` that answers to `key`, where there is one.
pub open spec fn match_index(list: Seq<Seq<u8>>, key: Seq<u8>) -> int {
    choose|i: int| first_match(list, key, i)
}

/// The list after the sub-update `s`. A recolor replaces the matched entry
/// by `s` and does nothing without a match. A presence toggle removes the
/// matched entry when `active` is false, and appends `s` when `active` holds
/// and nothing matched.
pub open spec fn apply_update(list: Seq<Seq<u8>>, s: Seq<u8>, active: bool) -> Seq<Seq<u8>> {
    let key = match_key(s);
    if is_recolor(s) {
        if has_match(list, key) {
            list.update(match_index(list, key), s)
        } else {
            list
        }
    } else if has_match(list, key) {
        if active {
            list
        } else {
            list.remove(match_index(list, key))
        }
    } else if active {
        list.push(s)
    } else {
        list
    }
}

/// The list after the sub-updates `subs`, each applied to the result of the
/// ones before it.
pub open spec fn apply_all(list: Seq<Seq<u8>>, subs: Seq<Seq<u8>>, active: bool) -> Seq<Seq<u8>>
    decreases subs.len(),
{
    if subs.len() == 0 {
        list
    } else {
        apply_update(apply_all(list, subs.drop_last(), active), subs.last(), active)
    }
}

/// The sub-updates of a batch: its lines, split at every `\n`.
pub open spec fn batch_updates(batch: Seq<u8>) -> Seq<Seq<u8>> {
    split(batch, NEWLINE)
}

/// The list after the batch `batch`.
pub open spec fn apply_batch(list: Seq<Seq<u8>>, batch: Seq<u8>, active: bool) -> Seq<Seq<u8>> {
    apply_all(list, batch_updates(batch), active)
}

/// Where `s` splits at `;;` into exactly two parts, the end of the first.
pub fn recolor_split(s: &[u8]) -> (r: Option<usize>)
    ensures
        match r {
            Some(f) => recolor_at(s@, f as int),
            None => !is_recolor(s@),
        },
{
    let n = s.len();
    let mut f: usize = 0;
    while n > 0 && f < n - 1 && !(s[f] == SEMICOLON && s[f + 1] == SEMICOLON)
        invariant
            n == s@.len(),
            f <= n,
            forall|j: int| 0 <= j < f ==> !#[trigger] sep_at(s@, j),
        decreases n - f,
    {
        f = f + 1;
    }
    if n == 0 || f >= n - 1 {
        assert forall|g: int| !recolor_at(s@, g) by {
            if recolor_at(s@, g) {
                assert(sep_at(s@, g));
            }
        }
        return None;
    }
    let mut j: usize = f + 2;
    while j < n - 1 && !(s[j] == SEMICOLON && s[j + 1] == SEMICOLON)
        invariant
            n == s@.len(),
            f + 1 < n,
            f + 2 <= j,
            sep_at(s@, f as int),
            forall|i: int| f + 2 <= i < j ==> !#[trigger] sep_at(s@, i),
        decreases n - j,
    {
        j = j + 1;
    }
    if j < n - 1 {
        assert forall|g: int| !recolor_at(s@, g) by {
            if recolor_at(s@, g) {
                if g < f {
                } else if g > f {
                    assert(sep_at(s@, f as int));
                } else {
                    assert(sep_at(s@, j as int));
                }
            }
        }
        None
    } else {
        assert forall|i: int| f + 2 <= i implies !#[trigger] sep_at(s@, i) by {
            if i >= j {
                assert(!(i + 1 < s@.len()));
            }
        }
        Some(f)
    }
}

/// Whether entry `e` answers to `key`.
pub fn entry_matches_key(e: &[u8], key: &[u8]) -> (r: bool)
    ensures
        r == entry_matches(e@, key@),
{
    let k = find_byte(e, COLON);
    if k > key.len() {
        return false;
    }
    let mut i: usize = 0;
    while i < k
        invariant
            k <= key@.len(),
            k <= e@.len(),
            i <= k,
            key@.take(i as int) == e@.take(i as int),
            first_field(e@) == e@.take(k as int),
        decreases k - i,
    {
        if e[i] != key[i] {
            assert(key@.take(k as int)[i as int] != e@.take(k as int)[i as int]);
            return false;
        }
        assert(key@.take(i + 1) =~= e@.take(i + 1));
        i = i + 1;
    }
    true
}

/// The first entry of `list` that answers to `key`, if any.
pub fn find_match(list: &AnnotationList, key: &[u8]) -> (r: Option<usize>)
    ensures
        match r {
            Some(i) => first_match(list@, key@, i as int),
            None => !has_match(list@, key@),
        },
{
    let mut i: usize = 0;
    while i < list.entries.len()
        invariant
            i <= list@.len(),
            forall|j: int| 0 <= j < i ==> !entry_matches(#[trigger] list@[j], key@),
        decreases list@.len() - i,
    {
        if entry_matches_key(list.entries[i].as_slice(), key) {
            return Some(i);
        }
        i = i + 1;
    }
    None
}

proof fn lemma_recolor_unique(s: Seq<u8>, f: int)
    requires
        recolor_at(s, f),
    ensures
        is_recolor(s),
        match_key(s) == s.take(f),
{
    let g = choose|g: int| recolor_at(s, g);
    assert(g == f) by {
        if g < f {
            assert(sep_at(s, g));
        } else if g > f {
            assert(sep_at(s, f));
        }
    }
}

proof fn lemma_first_match_unique(list: Seq<Seq<u8>>, key: Seq<u8>, i: int)
    requires
        first_match(list, key, i),
    ensures
        has_match(list, key),
        match_index(list, key) == i,
{
    assert(entry_matches(list[i], key));
    let j = match_index(list, key);
    assert(j == i) by {
        if j < i {
            assert(entry_matches(list[j], key));
        } else if j > i {
            assert(!entry_matches(list[i], key));
        }
    }
}

impl AnnotationList {
    /// Applies one sub-update: a recolor when `s` splits at `;;` into exactly
    /// two parts, else a presence toggle governed by `active`.
    pub fn apply_update(&mut self, s: &[u8], active: bool)
        ensures
            final(self)@ == apply_update(old(self)@, s@, active),
    {
        let ghost list = self@;
        match recolor_split(s) {
            Some(f) => {
                proof {
                    lemma_recolor_unique(s@, f as int);
                }
                let key = &s[0..f];
                assert(key@ == match_key(s@));
                match find_match(self, key) {
                    Some(i) => {
                        proof {
                            lemma_first_match_unique(list, key@, i as int);
                        }
                        self.entries[i] = slice_to_vec(s);
                        assert(self@ =~= list.update(i as int, s@));
                    },
                    None => {},
                }
            },
            None => {
                assert(match_key(s@) == s@);
                match find_match(self, s) {
                    Some(i) => {
                        proof {
                            lemma_first_match_unique(list, s@, i as int);
                        }
                        if !active {
                            self.entries.remove(i);
                            assert(self@ =~= list.remove(i as int));
                        }
                    },
                    None => {
                        if active {
                            self.entries.push(slice_to_vec(s));
                            assert(self@ =~= list.push(s@));
                        }
                    },
                }
            },
        }
    }

    /// Applies the batch `batch`: its `\n`-separated sub-updates in order,
    /// each one seeing the effect of those before it.
    pub fn apply_batch(&mut self, batch: &[u8], active: bool)
        ensures
            final(self)@ == apply_batch(old(self)@, batch@, active),
    {
        let subs = split_on(batch, NEWLINE);
        let ghost start = self@;
        let mut i: usize = 0;
        while i < subs.len()
            invariant
                i <= subs@.len(),
                views(subs@) == batch_updates(batch@),
                self@ == apply_all(start, views(subs@).take(i as int), active),
            decreases subs@.len() - i,
        {
            assert(views(subs@).take(i + 1).drop_last() == views(subs@).take(i as int));
            self.apply_update(subs[i].as_slice(), active);
            i = i + 1;
        }
        assert(views(subs@).take(i as int) == views(subs@));
    }
}

/// The new text of a list file after the batch `batch`: the text `content`
/// read as entries, updated, and written back.
pub fn reconcile_text(content: &[u8], batch: &[u8], active: bool) -> (r: Vec<u8>)
    ensures
        r@ == list_text(apply_batch(list_entries(content@), batch@, active)),
{
    let mut list = AnnotationList::parse(content);
    list.apply_batch(batch, active);
    list.to_text()
}

} // verus!
