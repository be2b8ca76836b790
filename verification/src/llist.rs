//! A key-addressable sequence container: an ordered list of
//! `(u64, String)` pairs with append, front insertion, positional
//! insertion, key lookup, key removal, length, resumable iteration
//! through a cursor held on the container, and text rendering.
//!
//! The chain of nodes is held in a vector in structural order, head
//! first, so every link invariant of a pointer chain becomes an index
//! invariant here. Keys are unique; inserting a present key is a
//! contract violation, excluded by `requires` rather than checked at
//! run time. Every structural mutation repoints the iteration cursor
//! to the current head, so an interleaved iteration restarts; an
//! iteration that ran out is resumed only by an explicit
//! `reset_cursor`.

use vstd::prelude::*;
use crate::digits::{spec_decimal, u64_to_string};
use vstd::string::StringExecFns;

verus! {

/// No two pairs of `s` carry the same key.
pub open spec fn unique_keys(s: Seq<(u64, Seq<char>)>) -> bool {
    forall|i: int, j: int| 0 <= i < j < s.len() ==> s[i].0 != s[j].0
}

/// Some pair of `s` carries the key `key`.
pub open spec fn has_key(s: Seq<(u64, Seq<char>)>, key: u64) -> bool {
    exists|i: int| 0 <= i < s.len() && #[trigger] s[i].0 == key
}

/// An index of `s` whose pair carries `key` (meaningful only when
/// `has_key(s, key)`; unique when `unique_keys(s)`).
pub open spec fn key_index(s: Seq<(u64, Seq<char>)>, key: u64) -> int {
    choose|i: int| 0 <= i < s.len() && #[trigger] s[i].0 == key
}

/// The value stored under `key`, or `None` when the key is absent.
pub open spec fn spec_get(s: Seq<(u64, Seq<char>)>, key: u64) -> Option<Seq<char>> {
    if has_key(s, key) {
        Some(s[key_index(s, key)].1)
    } else {
        None
    }
}

/// The sequence left after removing the pair under `key`, or `s`
/// itself when the key is absent.
pub open spec fn spec_remove(s: Seq<(u64, Seq<char>)>, key: u64) -> Seq<(u64, Seq<char>)> {
    if has_key(s, key) {
        s.remove(key_index(s, key))
    } else {
        s
    }
}

/// One rendered line: `<key> -> <value>` and a newline.
pub open spec fn spec_line(p: (u64, Seq<char>)) -> Seq<char> {
    spec_decimal(p.0 as nat) + " -> "@ + p.1 + "\n"@
}

/// The rendered text of a whole sequence of pairs, in structural order.
pub open spec fn spec_render(s: Seq<(u64, Seq<char>)>) -> Seq<char>
    decreases s.len(),
{
    if s.len() == 0 {
        Seq::empty()
    } else {
        spec_render(s.drop_last()) + spec_line(s.last())
    }
}

/// One storage cell: a key and its value.
struct Node {
    key: u64,
    val: String,
}

/// The key-addressable list. The vector holds the chain in structural
/// order (head first, tail last); `cursor` is the resumable iteration
/// position, `None` once iteration has run out or the list is empty.
pub struct LList {
    nodes: Vec<Node>,
    cursor: Option<usize>,
}

impl View for LList {
    type V = Seq<(u64, Seq<char>)>;

    closed spec fn view(&self) -> Seq<(u64, Seq<char>)> {
        self.nodes@.map_values(|n: Node| (n.key, n.val@))
    }
}

impl LList {
    /// Well-formedness: keys unique, and the cursor, when set, refers
    /// to a position inside the chain.
    pub closed spec fn wf(self) -> bool {
        &&& unique_keys(self@)
        &&& match self.cursor {
            Some(c) => c < self.nodes.len(),
            None => true,
        }
    }

    /// The pairs an iteration still has to yield, in structural order:
    /// from the cursor to the end of the chain.
    pub closed spec fn remaining(self) -> Seq<(u64, Seq<char>)> {
        match self.cursor {
            Some(c) => self@.skip(c as int),
            None => Seq::empty(),
        }
    }

    /// A well-formed list has unique keys in its view.
    pub proof fn lemma_wf_unique(self)
        requires
            self.wf(),
        ensures
            unique_keys(self@),
    {
    }

    /// Create a new empty list: no pairs, nothing to iterate.
    pub fn new() -> (r: Self)
        ensures
            r.wf(),
            r@ == Seq::<(u64, Seq<char>)>::empty(),
            r.remaining() == Seq::<(u64, Seq<char>)>::empty(),
    {
        let r = LList { nodes: Vec::new(), cursor: None };
        proof {
            assert(r@ =~= Seq::<(u64, Seq<char>)>::empty());
        }
        r
    }

    /// Point the iteration cursor back at the current head, so that a
    /// fresh traversal yields every pair in structural order.
    pub fn reset_cursor(&mut self)
        requires
            old(self).wf(),
        ensures
            final(self).wf(),
            final(self)@ == old(self)@,
            final(self).remaining() == final(self)@,
    {
        if self.nodes.len() == 0 {
            self.cursor = None;
            proof {
                assert(self.remaining() =~= self@);
            }
        } else {
            self.cursor = Some(0);
            proof {
                assert(self@.skip(0) =~= self@);
            }
        }
    }

    /// Whether `key` is already stored in the list.
    pub fn check_if_key_exists(&self, key: &u64) -> (r: bool)
        ensures
            r == has_key(self@, *key),
    {
        let mut i: usize = 0;
        let mut found = false;
        while i < self.nodes.len()
            invariant
                i <= self.nodes.len(),
                found == exists|j: int| 0 <= j < i && #[trigger] self@[j].0 == *key,
            decreases self.nodes.len() - i,
        {
            if self.nodes[i].key == *key {
                proof {
                    assert(self@[i as int].0 == *key);
                }
                found = true;
            }
            i += 1;
        }
        found
    }

    /// Push a pair to the back of the list.
    pub fn push(&mut self, key: u64, item: String)
        requires
            old(self).wf(),
            !has_key(old(self)@, key),
        ensures
            final(self).wf(),
            final(self)@ == old(self)@.push((key, item@)),
            final(self).remaining() == final(self)@,
    {
        let ghost v = item@;
        self.nodes.push(Node { key, val: item });
        self.cursor = Some(0);
        proof {
            assert(self@ =~= old(self)@.push((key, v)));
            assert(old(self)@.push((key, v)) =~= old(self)@.insert(old(self)@.len() as int, (key, v)));
            lemma_unique_keys_insert(old(self)@, old(self)@.len() as int, (key, v));
            assert(self@.skip(0) =~= self@);
        }
    }

    /// Push a pair to the front of the list: it becomes the new head,
    /// and iteration restarts from it.
    pub fn push_front(&mut self, key: u64, item: String)
        requires
            old(self).wf(),
            !has_key(old(self)@, key),
        ensures
            final(self).wf(),
            final(self)@ == seq![(key, item@)] + old(self)@,
            final(self).remaining() == final(self)@,
    {
        let ghost v = item@;
        self.nodes.insert(0, Node { key, val: item });
        self.cursor = Some(0);
        proof {
            assert(self@ =~= old(self)@.insert(0, (key, v)));
            assert(self@ =~= seq![(key, v)] + old(self)@);
            lemma_unique_keys_insert(old(self)@, 0, (key, v));
            assert(self@.skip(0) =~= self@);
        }
    }

    /// Insert a pair immediately after the pair at position `index`
    /// (so `index` 0 places it right after the head). The pairs before
    /// and after keep their relative order.
    pub fn insert(&mut self, key: u64, item: String, index: usize)
        requires
            old(self).wf(),
            index < old(self)@.len(),
            !has_key(old(self)@, key),
        ensures
            final(self).wf(),
            final(self)@ == old(self)@.insert(index as int + 1, (key, item@)),
            final(self).remaining() == final(self)@,
    {
        let ghost v = item@;
        self.nodes.insert(index + 1, Node { key, val: item });
        self.cursor = Some(0);
        proof {
            assert(self@ =~= old(self)@.insert(index as int + 1, (key, v)));
            lemma_unique_keys_insert(old(self)@, index as int + 1, (key, v));
            assert(self@.skip(0) =~= self@);
        }
    }

    /// Remove the pair stored under `key` and return its value, or
    /// return `None` and leave the list untouched when the key is
    /// absent. After a removal the iteration cursor is repointed to
    /// the current head.
    pub fn remove(&mut self, key: u64) -> (r: Option<String>)
        requires
            old(self).wf(),
        ensures
            final(self).wf(),
            final(self)@ == spec_remove(old(self)@, key),
            (match r {
                Some(v) => has_key(old(self)@, key) && spec_get(old(self)@, key) == Some(v@),
                None => !has_key(old(self)@, key),
            }),
            has_key(old(self)@, key) ==> final(self).remaining() == final(self)@,
            !has_key(old(self)@, key) ==> *final(self) == *old(self),
    {
        let mut i: usize = 0;
        while i < self.nodes.len()
            invariant
                old(self).wf(),
                *self == *old(self),
                i <= self.nodes.len(),
                forall|j: int| 0 <= j < i ==> #[trigger] self@[j].0 != key,
            decreases self.nodes.len() - i,
        {
            if self.nodes[i].key == key {
                proof {
                    assert(self@[i as int].0 == key);
                    assert(has_key(self@, key));
                    let k: int = key_index(self@, key);
                    assert(0 <= k < self@.len() && self@[k].0 == key);
                    assert(k == i as int);
                }
                let node = self.nodes.remove(i);
                if self.nodes.len() == 0 {
                    self.cursor = None;
                } else {
                    self.cursor = Some(0);
                }
                proof {
                    assert(self@ =~= old(self)@.remove(i as int));
                    lemma_unique_keys_remove(old(self)@, i as int);
                    if self.nodes.len() == 0 {
                        assert(self.remaining() =~= self@);
                    } else {
                        assert(self@.skip(0) =~= self@);
                    }
                }
                return Some(node.val);
            }
            i += 1;
        }
        proof {
            assert(!has_key(self@, key));
        }
        None
    }

    /// Return a copy of the value stored under `key`, or `None` when
    /// the key is absent. Neither the chain nor the cursor moves.
    pub fn get(&self, key: u64) -> (r: Option<String>)
        requires
            self.wf(),
        ensures
            (match r {
                Some(v) => has_key(self@, key) && spec_get(self@, key) == Some(v@),
                None => !has_key(self@, key),
            }),
    {
        let mut i: usize = 0;
        while i < self.nodes.len()
            invariant
                self.wf(),
                i <= self.nodes.len(),
                forall|j: int| 0 <= j < i ==> #[trigger] self@[j].0 != key,
            decreases self.nodes.len() - i,
        {
            if self.nodes[i].key == key {
                proof {
                    assert(self@[i as int].0 == key);
                    assert(has_key(self@, key));
                    let k: int = key_index(self@, key);
                    assert(0 <= k < self@.len() && self@[k].0 == key);
                    assert(k == i as int);
                }
                return Some(self.nodes[i].val.clone());
            }
            i += 1;
        }
        proof {
            assert(!has_key(self@, key));
        }
        None
    }

    /// The number of pairs in the list. The vector that holds the
    /// chain knows its length, so no traversal is needed.
    pub fn len(&self) -> (r: usize)
        ensures
            r == self@.len(),
    {
        self.nodes.len()
    }

    /// Yield the pair at the cursor and advance the cursor one step,
    /// or return `None` when the iteration has run out (or the list is
    /// empty). Running out leaves the cursor unset: a fresh traversal
    /// takes an explicit `reset_cursor`.
    pub fn next(&mut self) -> (r: Option<(u64, String)>)
        requires
            old(self).wf(),
        ensures
            final(self).wf(),
            final(self)@ == old(self)@,
            old(self).remaining().len() > 0 ==> (r matches Some(p)
                && p.0 == old(self).remaining()[0].0
                && p.1@ == old(self).remaining()[0].1
                && final(self).remaining() == old(self).remaining().drop_first()),
            old(self).remaining().len() == 0 ==> r is None && *final(self) == *old(self),
    {
        match self.cursor {
            None => None,
            Some(c) => {
                let k = self.nodes[c].key;
                let v = self.nodes[c].val.clone();
                if c + 1 < self.nodes.len() {
                    self.cursor = Some(c + 1);
                } else {
                    self.cursor = None;
                }
                proof {
                    assert(old(self).remaining()[0] == (k, v@));
                    assert(self.remaining() =~= old(self).remaining().drop_first());
                }
                Some((k, v))
            },
        }
    }

    /// The whole list as text, one `<key> -> <value>` line per pair,
    /// in structural order from the head, independent of the cursor.
    pub fn render(&self) -> (r: String)
        ensures
            r@ == spec_render(self@),
    {
        let mut buf = String::new();
        let mut i: usize = 0;
        while i < self.nodes.len()
            invariant
                i <= self.nodes.len(),
                buf@ == spec_render(self@.take(i as int)),
            decreases self.nodes.len() - i,
        {
            let mut line = u64_to_string(self.nodes[i].key);
            line.append(" -> ");
            line.append(self.nodes[i].val.as_str());
            line.append("\n");
            buf.append(line.as_str());
            proof {
                assert(line@ =~= spec_line(self@[i as int]));
                assert(self@.take(i as int + 1).drop_last() =~= self@.take(i as int));
                assert(self@.take(i as int + 1).last() == self@[i as int]);
                assert(buf@ =~= spec_render(self@.take(i as int + 1)));
            }
            i += 1;
        }
        proof {
            assert(self@.take(self@.len() as int) =~= self@);
        }
        buf
    }
}

/// Inserting a pair with a fresh key anywhere in a sequence with
/// unique keys leaves the keys unique.
proof fn lemma_unique_keys_insert(s: Seq<(u64, Seq<char>)>, at: int, p: (u64, Seq<char>))
    requires
        unique_keys(s),
        !has_key(s, p.0),
        0 <= at <= s.len(),
    ensures
        unique_keys(s.insert(at, p)),
{
    let t = s.insert(at, p);
    assert forall|i: int, j: int| 0 <= i < j < t.len() implies t[i].0 != t[j].0 by {
        if i == at {
            assert(t[j] == s[j - 1]);
            if t[j].0 == p.0 {
                assert(s[j - 1].0 == p.0);
            }
        } else if j == at {
            assert(t[i] == s[i]);
            if t[i].0 == p.0 {
                assert(s[i].0 == p.0);
            }
        } else {
            let si: int = if i < at { i } else { i - 1 };
            let sj: int = if j < at { j } else { j - 1 };
            assert(t[i] == s[si]);
            assert(t[j] == s[sj]);
        }
    }
}

/// Removing a pair from a sequence with unique keys leaves the keys
/// unique.
proof fn lemma_unique_keys_remove(s: Seq<(u64, Seq<char>)>, at: int)
    requires
        unique_keys(s),
        0 <= at < s.len(),
    ensures
        unique_keys(s.remove(at)),
{
    let t = s.remove(at);
    assert forall|i: int, j: int| 0 <= i < j < t.len() implies t[i].0 != t[j].0 by {
        let si: int = if i < at { i } else { i + 1 };
        let sj: int = if j < at { j } else { j + 1 };
        assert(t[i] == s[si]);
        assert(t[j] == s[sj]);
    }
}

} // verus!
