use vstd::prelude::*;

use crate::errors::StateError;

verus! {

/// Whether `i` names one of the three stacks.
pub open spec fn valid_id(i: u8) -> bool {
    1 <= i <= 3
}

/// How many times rank `d` occurs in `s`.
pub open spec fn occurrences(s: Seq<u8>, d: u8) -> nat
    decreases s.len(),
{
    if s.len() == 0 {
        0
    } else {
        occurrences(s.drop_last(), d) + (if s.last() == d {
            1nat
        } else {
            0nat
        })
    }
}

/// The ordering invariant for one stack: ranks strictly decrease from
/// bottom (index 0) to top (last index).
pub open spec fn strictly_decreasing(s: Seq<u8>) -> bool {
    forall|i: int, j: int| 0 <= i < j < s.len() ==> s[i] > s[j]
}

/// Mathematical model of the three stacks. Each sequence lists disc ranks
/// from bottom (index 0) to top (last).
#[verifier::ext_equal]
pub ghost struct Towers {
    pub t1: Seq<u8>,
    pub t2: Seq<u8>,
    pub t3: Seq<u8>,
}

impl Towers {
    pub open spec fn stack(self, i: u8) -> Seq<u8> {
        if i == 1 {
            self.t1
        } else if i == 2 {
            self.t2
        } else {
            self.t3
        }
    }

    pub open spec fn with_stack(self, i: u8, s: Seq<u8>) -> Towers {
        if i == 1 {
            (Towers { t1: s, ..self })
        } else if i == 2 {
            (Towers { t2: s, ..self })
        } else {
            (Towers { t3: s, ..self })
        }
    }

    /// A move is legal when the source holds a disc and that disc is smaller
    /// than the destination's top; an empty destination accepts any disc.
    pub open spec fn legal(self, from: u8, to: u8) -> bool {
        &&& self.stack(from).len() > 0
        &&& (self.stack(to).len() == 0 || self.stack(from).last() < self.stack(to).last())
    }

    /// The state after a legal move: the source loses its top disc, which
    /// becomes the destination's new top.
    pub open spec fn do_move(self, from: u8, to: u8) -> Towers {
        let d = self.stack(from).last();
        let shrunk = self.with_stack(from, self.stack(from).drop_last());
        shrunk.with_stack(to, shrunk.stack(to).push(d))
    }

    /// How many times rank `d` occurs over all three stacks.
    pub open spec fn disc_count(self, d: u8) -> nat {
        occurrences(self.t1, d) + occurrences(self.t2, d) + occurrences(self.t3, d)
    }

    /// The conservation invariant: each rank in 1..=n occurs exactly once over the three
    /// stacks combined, and no other rank occurs at all.
    pub open spec fn complete(self, n: u8) -> bool {
        forall|d: u8|
            self.disc_count(d) == if 1 <= d <= n {
                1nat
            } else {
                0nat
            }
    }

    /// The ordering invariant for every stack.
    pub open spec fn ordered(self) -> bool {
        strictly_decreasing(self.t1) && strictly_decreasing(self.t2) && strictly_decreasing(self.t3)
    }

    pub open spec fn inv(self, n: u8) -> bool {
        self.complete(n) && self.ordered()
    }

    /// Each stack fits the one-byte length fields of the wire format.
    pub open spec fn bounded(self) -> bool {
        self.t1.len() <= 255 && self.t2.len() <= 255 && self.t3.len() <= 255
    }

    /// The canonical layout right after initialization with `n` discs: all on
    /// stack 1, largest at the bottom.
    pub open spec fn initial(n: u8) -> Towers {
        Towers {
            t1: Seq::new(n as nat, |i: int| (n - i) as u8),
            t2: Seq::empty(),
            t3: Seq::empty(),
        }
    }
}

/// The complete persisted record: three ordered stacks of disc ranks, with
/// the last element of each vector on top.
#[derive(Clone, Debug, PartialEq, Eq)]
pub struct State {
    pub tower1: Vec<u8>,
    pub tower2: Vec<u8>,
    pub tower3: Vec<u8>,
}

impl View for State {
    type V = Towers;

    open spec fn view(&self) -> Towers {
        Towers { t1: self.tower1@, t2: self.tower2@, t3: self.tower3@ }
    }
}

impl State {
    /// Build the initial layout: `n` discs on stack 1, largest at the bottom.
    pub fn new(n: u8) -> (r: State)
        ensures
            r@ == Towers::initial(n),
    {
        let mut tower1: Vec<u8> = Vec::new();
        let mut k: u8 = 0;
        while k < n
            invariant
                k <= n,
                tower1@ == Seq::new(k as nat, |i: int| (n - i) as u8),
            decreases n - k,
        {
            tower1.push(n - k);
            k = k + 1;
            proof {
                assert(tower1@ =~= Seq::new(k as nat, |i: int| (n - i) as u8));
            }
        }
        let r = State { tower1, tower2: Vec::new(), tower3: Vec::new() };
        proof {
            assert(r@ =~= Towers::initial(n));
        }
        r
    }

    fn stack_ref(&self, i: u8) -> (r: &Vec<u8>)
        requires
            valid_id(i),
        ensures
            r@ == self@.stack(i),
    {
        if i == 1 {
            &self.tower1
        } else if i == 2 {
            &self.tower2
        } else {
            &self.tower3
        }
    }

    /// Whether moving the top of stack `from` onto stack `to` is allowed.
    /// Pure: reads the stacks and nothing else.
    pub fn is_legal(&self, from: u8, to: u8) -> (r: Result<bool, StateError>)
        ensures
            valid_id(from) && valid_id(to) ==> r == Ok::<bool, StateError>(self@.legal(from, to)),
            !(valid_id(from) && valid_id(to)) ==> r == Err::<bool, StateError>(
                StateError::InvalidStackId,
            ),
    {
        if from < 1 || from > 3 || to < 1 || to > 3 {
            return Err(StateError::InvalidStackId);
        }
        let source = self.stack_ref(from);
        if source.len() == 0 {
            return Ok(false);
        }
        let top_disc = source[source.len() - 1];
        let target = self.stack_ref(to);
        if target.len() == 0 {
            return Ok(true);
        }
        let bottom_disc = target[target.len() - 1];
        Ok(top_disc < bottom_disc)
    }

    /// Transfer the top disc of `from` onto `to` when the move is legal;
    /// otherwise leave every stack untouched and report why.
    pub fn move_disc(&mut self, from: u8, to: u8) -> (r: Result<(), StateError>)
        ensures
            !(valid_id(from) && valid_id(to)) ==> r == Err::<(), StateError>(
                StateError::InvalidStackId,
            ) && final(self)@ == old(self)@,
            valid_id(from) && valid_id(to) && !old(self)@.legal(from, to) ==> r == Err::<
                (),
                StateError,
            >(StateError::IllegalMove) && final(self)@ == old(self)@,
            valid_id(from) && valid_id(to) && old(self)@.legal(from, to) ==> r == Ok::<
                (),
                StateError,
            >(()) && final(self)@ == old(self)@.do_move(from, to),
    {
        let legal = match self.is_legal(from, to) {
            Ok(b) => b,
            Err(e) => {
                return Err(e);
            },
        };
        if !legal {
            return Err(StateError::IllegalMove);
        }
        proof {
            assert(from != to);
        }
        let disc = match from {
            1 => self.tower1.pop().unwrap(),
            2 => self.tower2.pop().unwrap(),
            _ => self.tower3.pop().unwrap(),
        };
        match to {
            1 => self.tower1.push(disc),
            2 => self.tower2.push(disc),
            _ => self.tower3.push(disc),
        }
        proof {
            assert(self@ =~= old(self)@.do_move(from, to));
        }
        Ok(())
    }
}

/// Law: the freshly initialized layout satisfies both invariants for
/// every positive disc count.
pub proof fn lemma_new_inv(n: u8)
    requires
        n >= 1,
    ensures
        Towers::initial(n).inv(n),
{
    let t = Towers::initial(n);
    assert forall|d: u8|
        t.disc_count(d) == if 1 <= d <= n {
            1nat
        } else {
            0nat
        } by {
        lemma_occurrences_initial(n, n as nat, d);
    }
}

/// Rank `d` occurs in the first `k` discs of the initial layout exactly when
/// it lies in the range those discs cover.
proof fn lemma_occurrences_initial(n: u8, k: nat, d: u8)
    requires
        k <= n,
    ensures
        occurrences(Seq::new(k, |i: int| (n - i) as u8), d) == if n - k < d <= n {
            1nat
        } else {
            0nat
        },
    decreases k,
{
    let s = Seq::new(k, |i: int| (n - i) as u8);
    if k == 0 {
    } else {
        let prev = Seq::new((k - 1) as nat, |i: int| (n - i) as u8);
        assert(s.drop_last() =~= prev);
        assert(s.last() == (n - (k - 1)) as u8);
        lemma_occurrences_initial(n, (k - 1) as nat, d);
    }
}

/// Appending one disc raises its own tally by one and no other.
proof fn lemma_occurrences_push(s: Seq<u8>, x: u8, d: u8)
    ensures
        occurrences(s.push(x), d) == occurrences(s, d) + (if x == d {
            1nat
        } else {
            0nat
        }),
{
    assert(s.push(x).drop_last() =~= s);
    assert(s.push(x).last() == x);
}

/// Law: a move out of an empty stack is never legal.
pub proof fn lemma_empty_source_illegal(t: Towers, from: u8, to: u8)
    requires
        valid_id(from),
        valid_id(to),
        t.stack(from).len() == 0,
    ensures
        !t.legal(from, to),
{
}

/// Law: a move from a non-empty stack onto an empty stack is always legal.
pub proof fn lemma_empty_target_legal(t: Towers, from: u8, to: u8)
    requires
        valid_id(from),
        valid_id(to),
        t.stack(from).len() > 0,
        t.stack(to).len() == 0,
    ensures
        t.legal(from, to),
{
}

/// Law: every legal move preserves conservation and ordering.
pub proof fn lemma_move_preserves_inv(t: Towers, from: u8, to: u8, n: u8)
    requires
        valid_id(from),
        valid_id(to),
        t.inv(n),
        t.legal(from, to),
    ensures
        t.do_move(from, to).inv(n),
{
    let d = t.stack(from).last();
    let shrunk = t.with_stack(from, t.stack(from).drop_last());
    let moved = t.do_move(from, to);
    assert(from != to);
    assert forall|x: u8|
        moved.disc_count(x) == if 1 <= x <= n {
            1nat
        } else {
            0nat
        } by {
        assert(t.disc_count(x) == if 1 <= x <= n {
            1nat
        } else {
            0nat
        });
        assert(shrunk.stack(to) == t.stack(to));
        assert(moved.stack(to) == t.stack(to).push(d));
        assert(moved.stack(from) == t.stack(from).drop_last());
        lemma_occurrences_push(t.stack(to), d, x);
        assert(occurrences(t.stack(from), x) == occurrences(t.stack(from).drop_last(), x) + (
        if d == x {
            1nat
        } else {
            0nat
        }));
        if from == 1 {
            if to == 2 {
                assert(moved.t1 == t.t1.drop_last() && moved.t2 == t.t2.push(d) && moved.t3
                    == t.t3);
            } else {
                assert(moved.t1 == t.t1.drop_last() && moved.t3 == t.t3.push(d) && moved.t2
                    == t.t2);
            }
        } else if from == 2 {
            if to == 1 {
                assert(moved.t2 == t.t2.drop_last() && moved.t1 == t.t1.push(d) && moved.t3
                    == t.t3);
            } else {
                assert(moved.t2 == t.t2.drop_last() && moved.t3 == t.t3.push(d) && moved.t1
                    == t.t1);
            }
        } else {
            if to == 1 {
                assert(moved.t3 == t.t3.drop_last() && moved.t1 == t.t1.push(d) && moved.t2
                    == t.t2);
            } else {
                assert(moved.t3 == t.t3.drop_last() && moved.t2 == t.t2.push(d) && moved.t1
                    == t.t1);
            }
        }
        assert(moved.disc_count(x) == t.disc_count(x));
    }
    assert(moved.ordered()) by {
        let src = t.stack(from).drop_last();
        assert(strictly_decreasing(src)) by {
            assert forall|i: int, j: int| 0 <= i < j < src.len() implies src[i] > src[j] by {
                assert(t.stack(from)[i] > t.stack(from)[j]);
            }
        }
        let dst = t.stack(to).push(d);
        assert(strictly_decreasing(dst)) by {
            assert forall|i: int, j: int| 0 <= i < j < dst.len() implies dst[i] > dst[j] by {
                if j < dst.len() - 1 {
                    assert(t.stack(to)[i] > t.stack(to)[j]);
                } else {
                    assert(dst[j] == d);
                    if i < t.stack(to).len() - 1 {
                        assert(t.stack(to)[i] > t.stack(to).last());
                    }
                }
            }
        }
    }
}

} // verus!
