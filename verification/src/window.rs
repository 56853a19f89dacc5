//! A fixed-length bitmap over a range of indices that slides forward as
//! larger indices arrive, for dropping repeats from a best-effort stream.

use vstd::prelude::*;

verus! {

/// The number of bits in one word of the bitmap.
pub open spec fn word_bits() -> nat {
    usize::BITS as nat
}

/// Whether bit `k` of `word` is set.
pub open spec fn word_bit(word: usize, k: nat) -> bool {
    word & (1usize << k) != 0
}

/// Setting bit `k` of a word sets that bit and leaves the others.
proof fn lemma_set_bit(word: usize, k: usize, j: usize)
    requires
        k < usize::BITS,
        j < usize::BITS,
    ensures
        word_bit(word | (1usize << k), j as nat) == (word_bit(word, j as nat) || j == k),
        !word_bit(0, j as nat),
{
    assert(((word | (1usize << k)) & (1usize << j) != 0) == ((word & (1usize << j) != 0) || j
        == k)) by (bit_vector)
        requires
            k < usize::BITS,
            j < usize::BITS,
    ;
    assert(0usize & (1usize << j) == 0) by (bit_vector);
}

/// Where positions split into a word and a bit within it: moving a position
/// by whole words moves its word and keeps its bit, and positions are
/// ordered as their words are.
proof fn lemma_word_of_position(p: int, d: int, b: int)
    requires
        b > 0,
        0 <= p,
        0 <= p + d * b,
    ensures
        (p + d * b) / b == p / b + d,
        (p + d * b) % b == p % b,
        0 <= p % b < b,
        forall|k: int| #![trigger k * b] (p / b < k <==> p < k * b),
{
    vstd::arithmetic::div_mod::lemma_fundamental_div_mod(p, b);
    assert(p + d * b == (p / b + d) * b + p % b) by (nonlinear_arith)
        requires
            p == b * (p / b) + p % b,
    ;
    vstd::arithmetic::div_mod::lemma_fundamental_div_mod_converse(
        p + d * b,
        b,
        p / b + d,
        p % b,
    );
    assert forall|k: int| #![trigger k * b] (p / b < k <==> p < k * b) by {
        assert((p / b < k) == (p < k * b)) by (nonlinear_arith)
            requires
                p == b * (p / b) + p % b,
                0 <= p % b < b,
                b > 0,
        ;
    }
}

/// A bitmap of `N` words over the indices from `first_index` on.
#[derive(Debug)]
pub struct Window<const N: usize> {
    map: [usize; N],
    first_index: u64,
}

impl<const N: usize> Window<N> {
    /// The lowest index that the window covers.
    pub closed spec fn first(&self) -> u64 {
        self.first_index
    }

    /// Whether the bit at position `p` of the bitmap is set.
    pub closed spec fn bit(&self, p: int) -> bool {
        0 <= p < N * word_bits() && word_bit(
            self.map@[p / word_bits() as int],
            (p % word_bits() as int) as nat,
        )
    }

    /// The number of indices that the window covers.
    pub open spec fn span() -> nat {
        (N * word_bits()) as nat
    }

    /// Whether the window holds `index` as seen. What it holds lies within
    /// its span.
    pub open spec fn marked(&self, index: u64) -> bool {
        self.first() <= index < self.first() + Self::span() && self.bit(index - self.first())
    }

    /// The number of words that the window keeps below the word of an index
    /// for which it slides: its words less half of them, rounded down, and
    /// none where it has one word only.
    pub open spec fn back_words() -> int {
        if N >= 2 {
            N - N / 2
        } else {
            0
        }
    }

    /// What `insert(index)` makes of the window `self`: the window `after`
    /// and the answer `fresh`.
    ///
    /// An index below the window is refused and changes nothing. Any other
    /// index is new if and only if the window did not hold it, and is held
    /// afterwards. An index within the span leaves the start where it is.
    /// An index above the span moves the start up by whole words, to
    /// `back_words` words below the word of the index; the window then
    /// holds, besides the index, what it held of the indices from its new
    /// start on.
    pub open spec fn inserted(&self, index: u64, after: Self, fresh: bool) -> bool {
        let w = (index - self.first()) / word_bits() as int;
        if index < self.first() {
            !fresh && after == *self
        } else {
            &&& fresh == !self.marked(index)
            &&& after.first() == if w < N {
                self.first() as int
            } else {
                self.first() + (w - Self::back_words()) * word_bits()
            }
            &&& self.first() <= after.first() <= index < after.first() + Self::span()
            &&& forall|i: u64|
                after.marked(i) == (i == index || self.marked(i) && i >= after.first())
        }
    }

    /// Creates an empty window that starts at index 0.
    pub fn new() -> (w: Self)
        ensures
            w.first() == 0,
            forall|i: u64| !w.marked(i),
    {
        let w = Window { map: [0; N], first_index: 0 };
        proof {
            assert forall|p: int| !w.bit(p) by {
                if 0 <= p < N * word_bits() {
                    let k = (p % word_bits() as int) as usize;
                    assert(0usize & (1usize << k) == 0) by (bit_vector);
                }
            }
        }
        w
    }

    /// The lowest index that the window covers.
    pub fn first_index(&self) -> (first: u64)
        ensures
            first == self.first(),
    {
        self.first_index
    }

    /// Returns true if `index` can be inserted: it is not below the window
    /// and not held as seen.
    pub fn can_insert(&self, index: u64) -> (ok: bool)
        ensures
            ok == (index >= self.first() && !self.marked(index)),
    {
        let adjusted = match index.checked_sub(self.first_index) {
            Some(offset) => offset,
            None => return false,
        };
        let bits = usize::BITS as u64;
        let word_idx = adjusted / bits;
        let word_offset = (adjusted % bits) as usize;
        if word_idx >= N as u64 {
            proof {
                assert(adjusted >= N * word_bits()) by (nonlinear_arith)
                    requires
                        adjusted / bits >= N,
                        bits == word_bits(),
                        bits > 0,
                ;
            }
            return true;
        }
        proof {
            assert(adjusted < N * word_bits()) by (nonlinear_arith)
                requires
                    adjusted / bits < N,
                    bits == word_bits(),
                    bits > 0,
            ;
        }
        let mask = 1usize << word_offset;
        self.map[word_idx as usize] & mask == 0
    }

    /// Moves the last `keep` words of the bitmap to its front and clears the
    /// words behind them.
    fn slide(&mut self, keep: usize)
        requires
            keep <= N,
        ensures
            final(self).first_index == old(self).first_index,
            forall|j: int|
                0 <= j < N ==> final(self).map@[j] == if j < keep {
                    old(self).map@[N - keep + j]
                } else {
                    0
                },
    {
        let drop = N - keep;
        let mut j: usize = 0;
        while j < keep
            invariant
                j <= keep <= N,
                drop == N - keep,
                self.first_index == old(self).first_index,
                forall|i: int| 0 <= i < j ==> self.map@[i] == old(self).map@[drop + i],
                forall|i: int| j <= i < N ==> self.map@[i] == old(self).map@[i],
            decreases keep - j,
        {
            let word = self.map[drop + j];
            self.map[j] = word;
            j = j + 1;
        }
        while j < N
            invariant
                keep <= j <= N,
                drop == N - keep,
                self.first_index == old(self).first_index,
                forall|i: int| 0 <= i < keep ==> self.map@[i] == old(self).map@[drop + i],
                forall|i: int| keep <= i < j ==> self.map@[i] == 0,
            decreases N - j,
        {
            self.map[j] = 0;
            j = j + 1;
        }
    }

    /// Attempts to insert `index`, and returns whether it was new.
    ///
    /// An index below the window is refused. An index above it moves the
    /// window forward by whole words, so that `back_words()` words lie below
    /// the word of the index; what the window held of the indices that it
    /// leaves behind is dropped.
    pub fn insert(&mut self, index: u64) -> (fresh: bool)
        requires
            N >= 1,
        ensures
            old(self).inserted(index, *final(self), fresh),
    {
        let adjusted = match index.checked_sub(self.first_index) {
            Some(offset) => offset,
            None => return false,
        };
        let bits = usize::BITS as u64;
        let word_offset = (adjusted % bits) as usize;
        let within = adjusted / bits < N as u64;
        let word_idx = if within {
            (adjusted / bits) as usize
        } else {
            let gap = adjusted / bits - N as u64;
            let back = if N >= 2 {
                N - N / 2
            } else {
                0
            };
            let keep = if gap >= back as u64 {
                0
            } else {
                back - gap as usize
            };
            self.slide(keep);
            proof {
                assert((gap + (N - back)) * bits <= adjusted) by (nonlinear_arith)
                    requires
                        gap + N == adjusted / bits,
                        0 <= back <= N,
                        bits > 0,
                ;
            }
            self.first_index = self.first_index + (gap + (N - back) as u64) * bits;
            back
        };
        let word = self.map[word_idx];
        let mask = 1usize << word_offset;
        let fresh = word & mask == 0;
        self.map[word_idx] = word | mask;
        proof {
            let b = word_bits() as int;
            let before = *old(self);
            let w = adjusted as int / b;
            let step = if within {
                0
            } else {
                w - Self::back_words()
            };
            let keep = if N - step > 0 {
                N - step
            } else {
                0
            };
            let moved = N - keep;
            let landing = word_idx * b + word_offset;
            lemma_word_of_position(adjusted as int, 0, b);
            lemma_word_of_position(word_offset as int, word_idx as int, b);
            lemma_set_bit(word, word_offset, word_offset);
            vstd::arithmetic::div_mod::lemma_fundamental_div_mod(adjusted as int, b);
            assert(adjusted == step * b + landing) by (nonlinear_arith)
                requires
                    adjusted == b * w + word_offset,
                    landing == word_idx * b + word_offset,
                    w == step + word_idx,
            ;
            assert(step * b >= 0) by (nonlinear_arith)
                requires
                    step >= 0,
                    b > 0,
            ;
            assert(landing < N * b) by {
                lemma_word_of_position(landing, 0, b);
            }
            assert(!within ==> word == 0);
            assert forall|p: int|
                self.bit(p) == (p == landing || 0 <= p < keep * b && before.bit(p + moved * b)) by {
                if 0 <= p < N * b {
                    let wi = p / b;
                    let k = p % b;
                    lemma_word_of_position(p, moved, b);
                    lemma_word_of_position(p, 0, b);
                    assert(0 <= wi < N);
                    assert((wi < keep) == (p < keep * b));
                    assert(self.bit(p) == word_bit(self.map@[wi], k as nat));
                    lemma_set_bit(word, word_offset, k as usize);
                    vstd::arithmetic::div_mod::lemma_fundamental_div_mod(p, b);
                    assert(p == wi * b + k) by (nonlinear_arith)
                        requires
                            p == b * wi + k,
                    ;
                    if wi < keep {
                        assert(p + moved * b < N * b) by (nonlinear_arith)
                            requires
                                p < keep * b,
                                keep + moved == N,
                        ;
                        assert(before.bit(p + moved * b) == word_bit(
                            before.map@[wi + moved],
                            k as nat,
                        ));
                    }
                    if wi == word_idx {
                        assert(self.map@[wi] == word | mask);
                        assert((p == landing) == (k == word_offset));
                    } else {
                        assert(p != landing);
                    }
                } else {
                    assert(!self.bit(p));
                    if 0 <= p < keep * b {
                        assert(keep * b <= N * b) by (nonlinear_arith)
                            requires
                                keep <= N,
                                b > 0,
                        ;
                    }
                }
            }
            assert(fresh == !before.marked(index)) by {
                if within {
                    assert(before.bit(adjusted as int) == word_bit(word, word_offset as nat));
                } else {
                    assert((w < N) == (adjusted < N * b));
                }
            }
            assert forall|i: u64|
                self.marked(i) == (i == index || before.marked(i) && i >= self.first()) by {
                if i >= self.first() {
                    let p = i - self.first();
                    assert(i - before.first() == p + step * b);
                    assert(self.bit(p) == (p == landing || 0 <= p < keep * b && before.bit(
                        p + moved * b,
                    )));
                    if keep > 0 {
                        assert(moved == step);
                        if !(p < keep * b) {
                            assert(p + step * b >= N * b) by (nonlinear_arith)
                                requires
                                    p >= keep * b,
                                    keep + step == N,
                            ;
                        }
                    } else {
                        assert(keep * b == 0);
                        assert(p + step * b >= N * b) by (nonlinear_arith)
                            requires
                                p >= 0,
                                step >= N,
                                b > 0,
                        ;
                    }
                }
            }
            assert((w < N) == (adjusted < N * b));
        }
        fresh
    }
}

impl<const N: usize> Window<N> {
    /// Walks the indices that the window holds, from its start upwards.
    pub fn iter<'a>(&'a self) -> (it: Iter<'a, N>)
        ensures
            it.window() == *self,
            it.position() == self.first(),
    {
        Iter { window: self, idx: Some(self.first_index) }
    }
}

/// A walk over the indices that a window holds, in growing order.
pub struct Iter<'a, const N: usize> {
    window: &'a Window<N>,
    idx: Option<u64>,
}

impl<'a, const N: usize> Iter<'a, N> {
    /// The window that is walked.
    pub closed spec fn window(&self) -> Window<N> {
        *self.window
    }

    /// The index at which the walk goes on; `2^64` once it has handed out
    /// the largest index there is.
    pub closed spec fn position(&self) -> int {
        match self.idx {
            Some(i) => i as int,
            None => u64::MAX + 1,
        }
    }

    /// Hands out the least index from `position()` on that the window
    /// holds, which lies within the window's span, and moves behind it;
    /// `None`, without moving, where there is none.
    pub fn next(&mut self) -> (item: Option<u64>)
        ensures
            final(self).window() == old(self).window(),
            match item {
                Some(i) => {
                    &&& old(self).position() <= i
                    &&& old(self).window().marked(i)
                    &&& old(self).window().first() <= i < old(self).window().first() + Window::<
                        N,
                    >::span()
                    &&& forall|j: u64| old(self).position() <= j < i ==> !old(self).window().marked(j)
                    &&& final(self).position() == i + 1
                },
                None => {
                    &&& forall|j: u64| old(self).position() <= j ==> !old(self).window().marked(j)
                    &&& final(self).position() == old(self).position()
                },
            },
    {
        let start = match self.idx {
            Some(i) => i,
            None => return None,
        };
        let first = self.window.first_index;
        let bits = usize::BITS as u64;
        let mut adj: u64 = if start > first {
            start - first
        } else {
            0
        };
        while adj / bits < N as u64
            invariant
                bits == word_bits(),
                first == self.window.first_index,
                self.idx == Some(start),
                old(self).idx == Some(start),
                self.window == old(self).window,
                first + adj <= u64::MAX,
                start <= first + adj,
                forall|j: u64| start <= j < first + adj ==> !self.window.marked(j),
            decreases u64::MAX - adj,
        {
            let word = self.window.map[(adj / bits) as usize];
            let mask = 1usize << ((adj % bits) as usize);
            if word & mask != 0 {
                let idx = first + adj;
                self.idx = idx.checked_add(1);
                return Some(idx);
            }
            if adj == u64::MAX - first {
                return None;
            }
            adj = adj + 1;
        }
        None
    }
}

} // verus!
