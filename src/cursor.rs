//! A wrap-around selection index over a collection of `len` records.
use vstd::prelude::*;

use vstd::arithmetic::div_mod::{lemma_add_mod_noop, lemma_mod_bound, lemma_mod_self_0, lemma_small_mod};

verus! {

/// A navigation request from the user.
#[derive(Debug, Clone, Copy, PartialEq, Eq, Structural)]
pub enum Navigation {
    Next,
    Prev,
}

/// The index after `i` among `n` records; on an empty collection it stays 0.
pub open spec fn next_index(n: nat, i: nat) -> nat {
    if n == 0 {
        0
    } else {
        (i + 1) % n
    }
}

/// The index before `i` among `n` records; on an empty collection it stays 0.
pub open spec fn prev_index(n: nat, i: nat) -> nat {
    if n == 0 {
        0
    } else {
        ((i + n - 1) as nat) % n
    }
}

/// The index reached from 0 after `k` moves forward among `n` records.
pub open spec fn after_nexts(n: nat, k: nat) -> nat
    decreases k,
{
    if k == 0 {
        0
    } else {
        next_index(n, after_nexts(n, (k - 1) as nat))
    }
}

/// The index reached from 0 after `k` moves back among `n` records.
pub open spec fn after_prevs(n: nat, k: nat) -> nat
    decreases k,
{
    if k == 0 {
        0
    } else {
        prev_index(n, after_prevs(n, (k - 1) as nat))
    }
}

/// The selected index over a collection of `len` records. While the collection
/// is empty nothing is selected and the index rests at 0.
pub struct SelectionCursor {
    len: usize,
    idx: usize,
}

impl View for SelectionCursor {
    /// The collection's size and the selected index.
    type V = (nat, nat);

    closed spec fn view(&self) -> (nat, nat) {
        (self.len as nat, self.idx as nat)
    }
}

impl SelectionCursor {
    #[verifier::type_invariant]
    spec fn inv(&self) -> bool {
        if self.len == 0 {
            self.idx == 0
        } else {
            self.idx < self.len
        }
    }

    /// A cursor on the first of `len` records, or an empty one.
    pub fn new(len: usize) -> (r: SelectionCursor)
        ensures
            r@ == (len as nat, 0nat),
    {
        SelectionCursor { len, idx: 0 }
    }

    /// Points the cursor at a reloaded collection of `len` records, at its first.
    pub fn reload(&mut self, len: usize)
        ensures
            final(self)@ == (len as nat, 0nat),
    {
        *self = SelectionCursor { len, idx: 0 };
    }

    /// The number of records.
    pub fn len(&self) -> (r: usize)
        ensures
            r == self@.0,
    {
        self.len
    }

    /// The selected index, or `None` on an empty collection.
    pub fn selected(&self) -> (r: Option<usize>)
        ensures
            self@.0 == 0 ==> r is None,
            self@.0 > 0 ==> r == Some(self@.1 as usize) && self@.1 < self@.0,
    {
        proof {
            use_type_invariant(self);
        }
        if self.len == 0 {
            None
        } else {
            Some(self.idx)
        }
    }

    /// Moves to the next record, from the last back to the first.
    pub fn next(&mut self)
        ensures
            final(self)@ == (old(self)@.0, next_index(old(self)@.0, old(self)@.1)),
    {
        proof {
            use_type_invariant(&*self);
        }
        if self.len > 0 {
            proof {
                if self.idx + 1 < self.len {
                    lemma_small_mod((self.idx + 1) as nat, self.len as nat);
                }
                lemma_mod_self_0(self.len as int);
            }
            let idx = if self.idx + 1 == self.len {
                0
            } else {
                self.idx + 1
            };
            *self = SelectionCursor { len: self.len, idx };
        }
    }

    /// Moves to the previous record, from the first back to the last.
    pub fn prev(&mut self)
        ensures
            final(self)@ == (old(self)@.0, prev_index(old(self)@.0, old(self)@.1)),
    {
        proof {
            use_type_invariant(&*self);
        }
        if self.len > 0 {
            proof {
                lemma_small_mod((self.len - 1) as nat, self.len as nat);
                lemma_mod_self_0(self.len as int);
            }
            let idx = if self.idx == 0 {
                self.len - 1
            } else {
                self.idx - 1
            };
            proof {
                if self.idx > 0 {
                    lemma_small_mod((self.idx - 1) as nat, self.len as nat);
                    assert((self.idx + self.len) - 1 == (self.idx - 1) + self.len);
                    lemma_add_mod_noop((self.idx - 1) as int, self.len as int, self.len as int);
                    lemma_small_mod(0, self.len as nat);
                }
            }
            *self = SelectionCursor { len: self.len, idx };
        }
    }

    /// Applies one navigation request.
    pub fn apply(&mut self, nav: Navigation)
        ensures
            final(self)@ == match nav {
                Navigation::Next => (old(self)@.0, next_index(old(self)@.0, old(self)@.1)),
                Navigation::Prev => (old(self)@.0, prev_index(old(self)@.0, old(self)@.1)),
            },
    {
        match nav {
            Navigation::Next => self.next(),
            Navigation::Prev => self.prev(),
        }
    }
}

/// Among `n > 0` records, `k` moves forward from the first record reach index
/// `k mod n`, and `k` moves back reach index `(n - k mod n) mod n`.
pub proof fn lemma_wrap_around(n: nat, k: nat)
    requires
        n > 0,
    ensures
        after_nexts(n, k) == k % n,
        after_prevs(n, k) == ((n - k % n) as nat) % n,
    decreases k,
{
    let m = n as int;
    if k == 0 {
        lemma_small_mod(0, n);
        lemma_mod_self_0(m);
    } else {
        lemma_wrap_around(n, (k - 1) as nat);
        let a = (k - 1) % m;
        lemma_mod_bound(k - 1, m);
        lemma_add_mod_noop(k - 1, 1, m);
        lemma_mod_self_0(m);
        if n == 1 {
            lemma_small_mod(0, n);
            assert(1int % m == 0) by {
                lemma_mod_self_0(m);
            }
            assert(k as int % m == 0);
            assert(a == 0);
        } else {
            lemma_small_mod(1, n);
            lemma_small_mod(0, n);
            if a + 1 < m {
                lemma_small_mod((a + 1) as nat, n);
            }
            if a > 0 {
                lemma_small_mod((n - a) as nat, n);
                lemma_small_mod((n - a - 1) as nat, n);
                lemma_add_mod_noop(n - a - 1, m, m);
                assert(n - a + n - 1 == (n - a - 1) + m);
            } else {
                lemma_small_mod((n - 1) as nat, n);
                lemma_add_mod_noop(n - 1, 0, m);
            }
        }
    }
}

/// On an empty collection, any number of moves in either direction leaves
/// the cursor at rest on index 0.
pub proof fn lemma_empty_stays(k: nat)
    ensures
        after_nexts(0, k) == 0,
        after_prevs(0, k) == 0,
        next_index(0, after_nexts(0, k)) == 0,
        prev_index(0, after_prevs(0, k)) == 0,
    decreases k,
{
    if k > 0 {
        lemma_empty_stays((k - 1) as nat);
    }
}

} // verus!
