use vstd::prelude::*;

verus! {

// The maze generator must be reproducible from an explicit seed, so its
// randomness comes from this self-contained xorshift generator: every draw
// is a pure function of the seed.

/// One xorshift step of the generator state.
pub open spec fn rng_step(s: u64) -> u64 {
    let a = s ^ (s << 13u64);
    let b = a ^ (a >> 7u64);
    b ^ (b << 17u64)
}

/// The state a seed starts from. Zero is the one fixed point of the xorshift
/// step, so a zero seed is replaced by an arbitrary odd constant.
pub open spec fn seed_state(seed: u64) -> u64 {
    if seed == 0 {
        0x9E37_79B9_7F4A_7C15u64
    } else {
        seed
    }
}

/// What a bounded draw returns: the next output reduced below `n`.
pub open spec fn rng_below(s: u64, n: u64) -> int {
    if n == 0 {
        0
    } else {
        rng_step(s) as int % n as int
    }
}

/// A deterministic pseudo-random generator; all outputs are functions of the
/// seed alone.
#[derive(Clone, Copy, Debug, PartialEq, Eq, Structural)]
pub struct Rng {
    pub state: u64,
}

impl Rng {
    pub fn new(seed: u64) -> (r: Rng)
        ensures
            r.state == seed_state(seed),
    {
        if seed == 0 {
            Rng { state: 0x9E37_79B9_7F4A_7C15u64 }
        } else {
            Rng { state: seed }
        }
    }

    /// Advance the state and return it.
    pub fn next_u64(&mut self) -> (r: u64)
        ensures
            final(self).state == rng_step(old(self).state),
            r == rng_step(old(self).state),
    {
        let s = self.state;
        let a = s ^ (s << 13u64);
        let b = a ^ (a >> 7u64);
        let c = b ^ (b << 17u64);
        self.state = c;
        c
    }

    /// Draw a value below `n`.
    pub fn below(&mut self, n: u64) -> (r: u64)
        requires
            n > 0,
        ensures
            final(self).state == rng_step(old(self).state),
            r == rng_below(old(self).state, n),
            r < n,
    {
        self.next_u64() % n
    }
}

/// The Fisher-Yates pass from position `i` down to 1: swap position `i` with
/// a drawn position at most `i`, then continue below it.
pub open spec fn shuffle_from(s: Seq<usize>, state: u64, i: nat) -> (Seq<usize>, u64)
    decreases i,
{
    if i == 0 {
        (s, state)
    } else {
        let r = rng_step(state);
        let j = r as int % ((i + 1) as int);
        shuffle_from(s.update(i as int, s[j]).update(j, s[i as int]), r, (i - 1) as nat)
    }
}

/// What shuffling a sequence from a generator state yields.
pub open spec fn shuffle_spec(s: Seq<usize>, state: u64) -> (Seq<usize>, u64) {
    if s.len() == 0 {
        (s, state)
    } else {
        shuffle_from(s, state, (s.len() - 1) as nat)
    }
}

/// Swapping two positions keeps the length, the set of elements, and
/// distinctness.
proof fn lemma_swap_properties(s: Seq<usize>, i: int, j: int)
    requires
        0 <= i < s.len(),
        0 <= j < s.len(),
    ensures
        ({
            let t = s.update(i, s[j]).update(j, s[i]);
            &&& t.len() == s.len()
            &&& forall|x: usize| t.contains(x) == s.contains(x)
            &&& (s.no_duplicates() ==> t.no_duplicates())
        }),
{
    let t = s.update(i, s[j]).update(j, s[i]);
    assert forall|x: usize| t.contains(x) == s.contains(x) by {
        if t.contains(x) {
            let k = choose|k: int| 0 <= k < t.len() && t[k] == x;
            if k == j {
                assert(s[i] == x);
            } else if k == i {
                assert(s[j] == x);
            } else {
                assert(s[k] == x);
            }
            assert(s.contains(x));
        }
        if s.contains(x) {
            let k = choose|k: int| 0 <= k < s.len() && s[k] == x;
            if k == i {
                assert(t[j] == x);
            } else if k == j {
                assert(t[i] == x);
            } else {
                assert(t[k] == x);
            }
            assert(t.contains(x));
        }
    }
    if s.no_duplicates() {
        assert forall|a: int, b: int|
            0 <= a < t.len() && 0 <= b < t.len() && a != b implies t[a] != t[b] by {
            let sa: int = if a == j {
                i
            } else if a == i {
                j
            } else {
                a
            };
            let sb: int = if b == j {
                i
            } else if b == i {
                j
            } else {
                b
            };
            assert(t[a] == s[sa]);
            assert(t[b] == s[sb]);
            assert(sa != sb);
        }
        assert(t.no_duplicates());
    }
}

/// The Fisher-Yates pass is a permutation: length, membership and
/// distinctness all survive it.
pub proof fn lemma_shuffle_from_permutes(s: Seq<usize>, state: u64, i: nat)
    requires
        i < s.len(),
    ensures
        ({
            let t = shuffle_from(s, state, i).0;
            &&& t.len() == s.len()
            &&& forall|x: usize| t.contains(x) == s.contains(x)
            &&& (s.no_duplicates() ==> t.no_duplicates())
        }),
    decreases i,
{
    if i != 0 {
        let r = rng_step(state);
        let j = r as int % ((i + 1) as int);
        assert(0 <= j <= i);
        let s2 = s.update(i as int, s[j]).update(j, s[i as int]);
        lemma_swap_properties(s, i as int, j);
        lemma_shuffle_from_permutes(s2, r, (i - 1) as nat);
    }
}

/// A shuffle is a permutation of its input.
pub proof fn lemma_shuffle_permutes(s: Seq<usize>, state: u64)
    ensures
        ({
            let t = shuffle_spec(s, state).0;
            &&& t.len() == s.len()
            &&& forall|x: usize| t.contains(x) == s.contains(x)
            &&& (s.no_duplicates() ==> t.no_duplicates())
        }),
{
    if s.len() != 0 {
        lemma_shuffle_from_permutes(s, state, (s.len() - 1) as nat);
    }
}

/// Shuffle the sequence in place, drawing from the generator.
pub fn shuffle(v: &mut Vec<usize>, rng: &mut Rng)
    ensures
        final(v)@ == shuffle_spec(old(v)@, old(rng).state).0,
        final(rng).state == shuffle_spec(old(v)@, old(rng).state).1,
{
    if v.len() == 0 {
        return ;
    }
    let ghost target = shuffle_spec(old(v)@, old(rng).state);
    let mut i: usize = v.len() - 1;
    while i >= 1
        invariant
            i < v@.len(),
            v@.len() <= usize::MAX,
            v@.len() == old(v)@.len(),
            shuffle_from(v@, rng.state, i as nat) == target,
        decreases i,
    {
        let j64 = rng.below((i + 1) as u64);
        let j = j64 as usize;
        assert(j <= i);
        let vi = v[i];
        let vj = v[j];
        v.set(i, vj);
        v.set(j, vi);
        i = i - 1;
    }
}

} // verus!
