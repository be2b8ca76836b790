//! General properties of the list, stated over the view that the
//! method contracts use and proved once and for all.

use vstd::prelude::*;
use crate::llist::{has_key, key_index, spec_get, spec_remove, unique_keys};

verus! {

/// The view that results from appending each pair of `ps` in turn,
/// starting from the view `s`, the way `LList::push` extends the view
/// one pair at a time.
pub open spec fn append_all(
    s: Seq<(u64, Seq<char>)>,
    ps: Seq<(u64, Seq<char>)>,
) -> Seq<(u64, Seq<char>)>
    decreases ps.len(),
{
    if ps.len() == 0 {
        s
    } else {
        append_all(s.push(ps.first()), ps.drop_first())
    }
}

/// Appends land in order: a run of appends extends the view by
/// exactly the appended pairs, in append order. Starting from the
/// empty view, the view afterwards is the appended pairs themselves,
/// so `len` returns their number and iteration from the head yields
/// them in append order.
pub proof fn lemma_appends_in_order(s: Seq<(u64, Seq<char>)>, ps: Seq<(u64, Seq<char>)>)
    ensures
        append_all(s, ps) == s + ps,
    decreases ps.len(),
{
    if ps.len() == 0 {
        assert(s + ps =~= s);
    } else {
        lemma_appends_in_order(s.push(ps.first()), ps.drop_first());
        assert(s.push(ps.first()) + ps.drop_first() =~= s + ps);
    }
}

/// A lookup finds what an append stored: after appending a pair with
/// a key that was absent, looking the key up yields the appended
/// value; and looking up a key that is absent yields nothing.
pub proof fn lemma_get_after_append(s: Seq<(u64, Seq<char>)>, key: u64, v: Seq<char>)
    requires
        !has_key(s, key),
    ensures
        spec_get(s.push((key, v)), key) == Some(v),
        spec_get(s, key) is None,
{
    let t = s.push((key, v));
    assert(t[s.len() as int].0 == key);
    assert(has_key(t, key));
    let k: int = key_index(t, key);
    assert(0 <= k < t.len() && t[k].0 == key);
    if k < s.len() {
        assert(s[k].0 == key);
    }
    assert(k == s.len() as int);
}

/// Removal under a key takes exactly that key out: afterwards the key
/// is no longer found, the length has dropped by one when the key was
/// present, and nothing has changed when it was absent.
pub proof fn lemma_get_after_remove(s: Seq<(u64, Seq<char>)>, key: u64)
    requires
        unique_keys(s),
    ensures
        spec_get(spec_remove(s, key), key) is None,
        has_key(s, key) ==> spec_remove(s, key).len() == s.len() - 1,
        !has_key(s, key) ==> spec_remove(s, key) == s,
{
    if has_key(s, key) {
        let k: int = key_index(s, key);
        assert(0 <= k < s.len() && s[k].0 == key);
        let t = s.remove(k);
        if has_key(t, key) {
            let j: int = key_index(t, key);
            assert(0 <= j < t.len() && t[j].0 == key);
            let sj: int = if j < k {
                j
            } else {
                j + 1
            };
            assert(t[j] == s[sj]);
            assert(s[sj].0 == key && s[k].0 == key && sj != k);
        }
    }
}

/// Removing the sole remaining pair empties the list, so a later
/// append meets the same view as on a fresh list: the view after it
/// is the single appended pair.
pub proof fn lemma_remove_sole_pair(s: Seq<(u64, Seq<char>)>, key: u64, p: (u64, Seq<char>))
    requires
        s.len() == 1,
        s[0].0 == key,
    ensures
        spec_remove(s, key) == Seq::<(u64, Seq<char>)>::empty(),
        spec_remove(s, key).push(p) == seq![p],
{
    assert(has_key(s, key));
    let k: int = key_index(s, key);
    assert(0 <= k < s.len() && s[k].0 == key);
    assert(k == 0);
    assert(s.remove(0) =~= Seq::<(u64, Seq<char>)>::empty());
    assert(spec_remove(s, key).push(p) =~= seq![p]);
}

} // verus!
