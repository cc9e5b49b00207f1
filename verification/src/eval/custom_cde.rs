use vstd::prelude::*;
use vstd::arithmetic::power2::*;
use vstd::arithmetic::div_mod::*;
use vstd::std_specs::bits::u64_leading_zeros;

verus! {

/// Bit `m` of a non-negative integer.
pub open spec fn bit(x: int, m: nat) -> int {
    (x / (pow2(m) as int)) % 2
}

/// The `k` lowest bits of `x`, in reverse order.
pub open spec fn rev(k: nat, x: int) -> int
    decreases k,
{
    if k == 0 {
        0
    } else {
        2 * rev((k - 1) as nat, x) + bit(x, (k - 1) as nat)
    }
}

/// Number of binary digits of `n` (zero for zero).
pub open spec fn bit_len(n: nat) -> nat
    decreases n,
{
    if n == 0 {
        0
    } else {
        1 + bit_len(n / 2)
    }
}

/// The indices below `n` among the bit-reversals of `0, 1, ..., i - 1`
/// (taken over `k` bits), in that order.
pub open spec fn emitted(n: int, k: nat, i: int) -> Seq<int>
    decreases i,
{
    if i <= 0 {
        Seq::empty()
    } else {
        let prev = emitted(n, k, i - 1);
        let r = rev(k, i - 1);
        if r < n {
            prev.push(r)
        } else {
            prev
        }
    }
}

/// The smallest `k` with `2^k >= n`: the number of bits the indices of
/// `0..n` are reversed over.
pub open spec fn min_bits(n: nat) -> nat {
    if n == 0 {
        0
    } else {
        bit_len((n - 1) as nat)
    }
}

/// The order in which the indices `0..n` are visited: counting up through
/// all numbers of `min_bits(n)` bits, each is bit-reversed, and the
/// reversals below `n` are kept.
pub open spec fn bit_reversal_order(n: nat) -> Seq<int> {
    emitted(n as int, min_bits(n), pow2(min_bits(n)) as int)
}

proof fn lemma_pow2_facts(e: nat)
    ensures
        pow2(e) > 0,
        pow2(e + 1) == 2 * pow2(e),
{
    lemma_pow2_pos(e);
    lemma_pow2_unfold(e + 1);
}

proof fn lemma_div_pow2_step(x: int, m: nat)
    requires
        x >= 0,
    ensures
        (x / 2) / (pow2(m) as int) == x / (pow2(m + 1) as int),
{
    lemma_pow2_facts(m);
    lemma_div_denominator(x, 2, pow2(m) as int);
    assert(2 * (pow2(m) as int) == pow2(m + 1) as int);
}

proof fn lemma_bit_half(x: int, m: nat)
    requires
        x >= 0,
    ensures
        bit(x / 2, m) == bit(x, m + 1),
{
    lemma_div_pow2_step(x, m);
}

proof fn lemma_bit_range(x: int, m: nat)
    requires
        x >= 0,
    ensures
        bit(x, m) == 0 || bit(x, m) == 1,
{
    lemma_pow2_facts(m);
}

/// The reversal of `k` bits is a number of `k` bits.
proof fn lemma_rev_bound(k: nat, x: int)
    requires
        x >= 0,
    ensures
        0 <= rev(k, x) < pow2(k),
    decreases k,
{
    if k == 0 {
        lemma_pow2(0);
        vstd::arithmetic::power::lemma_pow0(2);
    } else {
        lemma_rev_bound((k - 1) as nat, x);
        lemma_bit_range(x, (k - 1) as nat);
        lemma_pow2_facts((k - 1) as nat);
    }
}

/// Bit `m` of the reversal is bit `k - 1 - m` of the input.
proof fn lemma_bit_of_rev(k: nat, x: int, m: nat)
    requires
        x >= 0,
        m < k,
    ensures
        bit(rev(k, x), m) == bit(x, (k - 1 - m) as nat),
    decreases k,
{
    let r = rev((k - 1) as nat, x);
    let b = bit(x, (k - 1) as nat);
    lemma_rev_bound((k - 1) as nat, x);
    lemma_bit_range(x, (k - 1) as nat);
    assert(rev(k, x) == 2 * r + b);
    if m == 0 {
        lemma_pow2(0);
        vstd::arithmetic::power::lemma_pow0(2);
        assert((2 * r + b) / 1 == 2 * r + b);
    } else {
        assert((2 * r + b) / 2 == r);
        lemma_bit_half(2 * r + b, (m - 1) as nat);
        lemma_bit_of_rev((k - 1) as nat, x, (m - 1) as nat);
    }
}

/// Two numbers of `k` bits with the same `k` bits are equal.
proof fn lemma_bits_determine(k: nat, x: int, y: int)
    requires
        0 <= x < pow2(k),
        0 <= y < pow2(k),
        forall|m: nat| m < k ==> #[trigger] bit(x, m) == bit(y, m),
    ensures
        x == y,
    decreases k,
{
    if k == 0 {
        lemma_pow2(0);
        vstd::arithmetic::power::lemma_pow0(2);
    } else {
        lemma_pow2_facts((k - 1) as nat);
        assert forall|m: nat| m < (k - 1) as nat implies #[trigger] bit(x / 2, m) == bit(y / 2, m) by {
            lemma_bit_half(x, m);
            lemma_bit_half(y, m);
            assert(bit(x, m + 1) == bit(y, m + 1));
        }
        lemma_bits_determine((k - 1) as nat, x / 2, y / 2);
        assert(bit(x, 0) == bit(y, 0));
        lemma_pow2(0);
        vstd::arithmetic::power::lemma_pow0(2);
        assert(x / 1 == x);
        assert(y / 1 == y);
    }
}

/// Reversing `k` bits twice gives back every number of `k` bits.
pub proof fn lemma_rev_involution(k: nat, x: int)
    requires
        0 <= x < pow2(k),
    ensures
        rev(k, rev(k, x)) == x,
{
    let r = rev(k, x);
    lemma_rev_bound(k, x);
    lemma_rev_bound(k, r);
    assert forall|m: nat| m < k implies #[trigger] bit(rev(k, r), m) == bit(x, m) by {
        lemma_bit_of_rev(k, r, m);
        lemma_bit_of_rev(k, x, (k - 1 - m) as nat);
    }
    lemma_bits_determine(k, rev(k, r), x);
}

proof fn lemma_bit_len_bounds(n: nat)
    requires
        n > 0,
    ensures
        bit_len(n) >= 1,
        pow2((bit_len(n) - 1) as nat) <= n < pow2(bit_len(n)),
    decreases n,
{
    if n == 1 {
        assert(bit_len(0) == 0);
        lemma_pow2(0);
        vstd::arithmetic::power::lemma_pow0(2);
        lemma_pow2_facts(0);
    } else {
        lemma_bit_len_bounds(n / 2);
        lemma_pow2_facts((bit_len(n / 2) - 1) as nat);
        lemma_pow2_facts(bit_len(n / 2));
    }
}

proof fn lemma_bit_len_leading_zeros(x: u64)
    ensures
        bit_len(x as nat) == 64 - u64_leading_zeros(x),
    decreases x,
{
    reveal(u64_leading_zeros);
    if x > 0 {
        lemma_bit_len_leading_zeros(x / 2);
    }
}


/// `min_bits(n)` is the smallest `k` with `2^k >= n`, and `2^k < 2n` for
/// every `n > 0`.
proof fn lemma_min_bits(n: nat)
    ensures
        n <= pow2(min_bits(n)),
        min_bits(n) > 0 ==> pow2((min_bits(n) - 1) as nat) < n,
        n > 0 ==> pow2(min_bits(n)) < 2 * n,
{
    lemma_pow2(0);
    vstd::arithmetic::power::lemma_pow0(2);
    if n >= 2 {
        lemma_bit_len_bounds((n - 1) as nat);
        lemma_pow2_facts((bit_len((n - 1) as nat) - 1) as nat);
    } else if n == 1 {
        assert(bit_len(0) == 0);
    }
}

/// Reversing any number of bits of zero gives zero.
proof fn lemma_rev_zero(k: nat)
    ensures
        rev(k, 0) == 0,
    decreases k,
{
    if k > 0 {
        lemma_rev_zero((k - 1) as nat);
        lemma_pow2_facts((k - 1) as nat);
    }
}

proof fn lemma_emitted_members(n: int, k: nat, i: int)
    requires
        i >= 0,
    ensures
        forall|t: int|
            0 <= t < emitted(n, k, i).len() ==> {
                let x = #[trigger] emitted(n, k, i)[t];
                &&& 0 <= x < n
                &&& exists|j: int| 0 <= j < i && rev(k, j) == x
            },
        forall|j: int| 0 <= j < i && rev(k, j) < n ==> emitted(n, k, i).contains(#[trigger] rev(k, j)),
    decreases i,
{
    if i > 0 {
        lemma_emitted_members(n, k, i - 1);
        let prev = emitted(n, k, i - 1);
        let r = rev(k, i - 1);
        lemma_rev_bound(k, i - 1);
        assert forall|t: int| 0 <= t < emitted(n, k, i).len() implies {
            let x = #[trigger] emitted(n, k, i)[t];
            &&& 0 <= x < n
            &&& exists|j: int| 0 <= j < i && rev(k, j) == x
        } by {
            if t < prev.len() {
                assert(emitted(n, k, i)[t] == prev[t]);
                let x = prev[t];
                let j = choose|j: int| 0 <= j < i - 1 && rev(k, j) == x;
                assert(0 <= j < i && rev(k, j) == x);
            } else {
                assert(emitted(n, k, i)[t] == r);
                assert(0 <= i - 1 < i && rev(k, i - 1) == r);
            }
        }
        assert forall|j: int| 0 <= j < i && rev(k, j) < n implies emitted(n, k, i).contains(
            #[trigger] rev(k, j),
        ) by {
            if j < i - 1 {
                let t = choose|t: int| 0 <= t < prev.len() && prev[t] == rev(k, j);
                assert(emitted(n, k, i)[t] == rev(k, j));
            } else {
                assert(emitted(n, k, i)[prev.len() as int] == rev(k, j));
            }
        }
    }
}

proof fn lemma_emitted_no_duplicates(n: int, k: nat, i: int)
    requires
        0 <= i <= pow2(k),
    ensures
        emitted(n, k, i).no_duplicates(),
    decreases i,
{
    if i > 0 {
        lemma_emitted_no_duplicates(n, k, i - 1);
        lemma_emitted_members(n, k, i - 1);
        let prev = emitted(n, k, i - 1);
        let r = rev(k, i - 1);
        if r < n {
            if prev.contains(r) {
                let t = choose|t: int| 0 <= t < prev.len() && prev[t] == r;
                let x = prev[t];
                let j = choose|j: int| 0 <= j < i - 1 && rev(k, j) == x;
                lemma_rev_involution(k, j);
                lemma_rev_involution(k, i - 1);
                assert(false);
            }
            let s = prev.push(r);
            assert forall|a: int, b: int| 0 <= a < s.len() && 0 <= b < s.len() && a != b implies s[a]
                != s[b] by {
                if a < prev.len() && b < prev.len() {
                } else if a < prev.len() {
                    assert(prev.contains(s[a]));
                } else {
                    assert(prev.contains(s[b]));
                }
            }
        }
    }
}

proof fn lemma_emitted_prefix(n: int, k: nat, i: int, i2: int)
    requires
        0 <= i <= i2,
    ensures
        emitted(n, k, i).len() <= emitted(n, k, i2).len(),
        emitted(n, k, i2).take(emitted(n, k, i).len() as int) == emitted(n, k, i),
    decreases i2 - i,
{
    if i < i2 {
        lemma_emitted_prefix(n, k, i, i2 - 1);
        let a = emitted(n, k, i);
        let b = emitted(n, k, i2 - 1);
        let c = emitted(n, k, i2);
        assert(c.take(b.len() as int) =~= b);
        assert(c.take(a.len() as int) =~= b.take(a.len() as int));
    } else {
        assert(emitted(n, k, i).take(emitted(n, k, i).len() as int) =~= emitted(n, k, i));
    }
}

/// The visiting order is a permutation of `0..n`: it has `n` entries, no
/// entry twice, and holds exactly the indices below `n`; it starts at `0`.
pub proof fn lemma_bit_reversal_order_is_permutation(n: nat)
    ensures
        bit_reversal_order(n).len() == n,
        bit_reversal_order(n).no_duplicates(),
        forall|x: int| #[trigger] bit_reversal_order(n).contains(x) <==> 0 <= x < n,
        n > 0 ==> bit_reversal_order(n)[0] == 0,
{
    let k = min_bits(n);
    let full = bit_reversal_order(n);
    lemma_min_bits(n);
    lemma_pow2_facts(k);
    assert(n <= pow2(k));
    if n > 0 {
        lemma_rev_zero(k);
        lemma_emitted_prefix(n as int, k, 1, pow2(k) as int);
        assert(emitted(n as int, k, 0) =~= Seq::<int>::empty());
        assert(emitted(n as int, k, 1) =~= seq![0int]);
        assert(full.take(1)[0] == full[0]);
    }
    lemma_emitted_members(n as int, k, pow2(k) as int);
    lemma_emitted_no_duplicates(n as int, k, pow2(k) as int);
    assert forall|x: int| #[trigger] full.contains(x) <==> 0 <= x < n by {
        if 0 <= x < n {
            lemma_rev_involution(k, x);
            lemma_rev_bound(k, x);
            assert(rev(k, rev(k, x)) == x);
        }
        if full.contains(x) {
            let t = choose|t: int| 0 <= t < full.len() && full[t] == x;
        }
    }
    assert(full.to_set() =~= vstd::set_lib::set_int_range(0, n as int));
    vstd::set_lib::lemma_int_range(0, n as int);
    full.unique_seq_to_set();
}

/// The `k` lowest bits of `x` in reverse order.
fn reverse_low_bits(x: usize, k: u32) -> (r: usize)
    requires
        pow2(k as nat) <= usize::MAX,
    ensures
        r == rev(k as nat, x as int),
{
    let mut r: usize = 0;
    let mut y: usize = x;
    let mut j: u32 = 0;
    proof {
        lemma_pow2(0);
        vstd::arithmetic::power::lemma_pow0(2);
        assert((x as int) / 1 == x);
    }
    while j < k
        invariant
            j <= k,
            pow2(k as nat) <= usize::MAX,
            r == rev(j as nat, x as int),
            y == (x as int) / (pow2(j as nat) as int),
        decreases k - j,
    {
        proof {
            lemma_rev_bound((j + 1) as nat, x as int);
            lemma_pow2_facts(j as nat);
            if j + 1 < k {
                lemma_pow2_strictly_increases((j + 1) as nat, k as nat);
            }
            lemma_div_denominator(x as int, pow2(j as nat) as int, 2);
            assert(rev((j + 1) as nat, x as int) == 2 * r + y % 2);
        }
        r = 2 * r + y % 2;
        y = y / 2;
        j = j + 1;
    }
    r
}

/// Visits every index of `0..n` exactly once, in bit-reversed order, so that
/// consecutive indices lie far apart (used to walk the edges of a polygon).
pub struct GeneralizedBitReversalIterator {
    n: usize,
    k: u32,
    i: usize,
    count: usize,
}

impl GeneralizedBitReversalIterator {
    #[verifier::type_invariant]
    spec fn inv(self) -> bool {
        &&& self.n <= isize::MAX
        &&& self.k == min_bits(self.n as nat)
        &&& self.i <= pow2(self.k as nat)
        &&& pow2(self.k as nat) <= usize::MAX
        &&& self.n <= pow2(self.k as nat)
        &&& self.count == emitted(self.n as int, self.k as nat, self.i as int).len()
    }

    /// Size of the range that is visited.
    pub closed spec fn range_len(self) -> nat {
        self.n as nat
    }

    /// How many indices have been handed out so far.
    pub closed spec fn n_yielded(self) -> nat {
        self.count as nat
    }

    /// The number of bits the candidates are reversed over.
    pub closed spec fn bits(self) -> nat {
        self.k as nat
    }

    /// How many candidates of `0..2^bits` have been examined so far; each
    /// step of the search in `next` examines one.
    pub closed spec fn position(self) -> nat {
        self.i as nat
    }

    /// An iterator over `0..n` that has handed out nothing yet. It reverses
    /// over the smallest number of bits `k` with `2^k >= n`.
    pub fn new(n: usize) -> (it: Self)
        requires
            n <= isize::MAX,
        ensures
            it.range_len() == n,
            it.n_yielded() == 0,
            it.position() == 0,
            it.bits() == min_bits(n as nat),
            n <= pow2(it.bits()),
            it.bits() > 0 ==> pow2((it.bits() - 1) as nat) < n,
            n > 0 ==> pow2(it.bits()) < 2 * n,
    {
        proof {
            lemma_min_bits(n as nat);
            lemma_pow2_facts(0);
            lemma_pow2(0);
            vstd::arithmetic::power::lemma_pow0(2);
        }
        if n == 0 {
            Self { n: 0, k: 0, i: 0, count: 0 }
        } else {
            let lz = ((n - 1) as u64).leading_zeros();
            proof {
                lemma_bit_len_leading_zeros((n - 1) as u64);
                assert(isize::MAX <= 0x7fff_ffff_ffff_ffff);
                assert(2 * isize::MAX < usize::MAX);
            }
            let k = 64 - lz;
            Self { n, k, i: 0, count: 0 }
        }
    }

    /// Hands out the next index of the visiting order of `0..n`, or nothing
    /// once all `n` indices have been handed out; then it examines no
    /// candidate at all.
    pub fn next(&mut self) -> (r: Option<usize>)
        ensures
            final(self).range_len() == old(self).range_len(),
            final(self).bits() == old(self).bits(),
            old(self).position() <= final(self).position(),
            final(self).position() <= pow2(final(self).bits()),
            old(self).n_yielded() < old(self).range_len() ==> {
                &&& r == Some(
                    bit_reversal_order(old(self).range_len())[old(self).n_yielded() as int] as usize,
                )
                &&& final(self).n_yielded() == old(self).n_yielded() + 1
            },
            old(self).n_yielded() >= old(self).range_len() ==> {
                &&& r is None
                &&& final(self).n_yielded() == old(self).n_yielded()
                &&& final(self).position() == old(self).position()
            },
    {
        proof {
            use_type_invariant(&*self);
        }
        let n = self.n;
        let k = self.k;
        let count = self.count;
        let mut i = self.i;
        let ghost full = bit_reversal_order(n as nat);
        proof {
            lemma_bit_reversal_order_is_permutation(n as nat);
        }
        while count < n
            invariant
                n == self.n,
                k == self.k,
                count == self.count,
                n == old(self).n,
                count == old(self).count,
                k == old(self).k,
                old(self).i <= i,
                count >= n ==> i == old(self).i,
                n <= isize::MAX,
                k == min_bits(n as nat),
                full == bit_reversal_order(n as nat),
                full.len() == n,
                i <= pow2(k as nat),
                pow2(k as nat) <= usize::MAX,
                n <= pow2(k as nat),
                count == emitted(n as int, k as nat, i as int).len(),
            decreases pow2(k as nat) - i,
        {
            assert(i < pow2(k as nat));
            let r = reverse_low_bits(i, k);
            proof {
                lemma_rev_bound(k as nat, i as int);
            }
            i = i + 1;
            if r < n {
                proof {
                    lemma_emitted_prefix(n as int, k as nat, i as int, pow2(k as nat) as int);
                    let e = emitted(n as int, k as nat, i as int);
                    assert(e[count as int] == r);
                    assert(full.take(e.len() as int)[count as int] == full[count as int]);
                }
                *self = Self { n, k, i, count: count + 1 };
                return Some(r);
            }
        }
        proof {
            lemma_emitted_prefix(n as int, k as nat, i as int, pow2(k as nat) as int);
        }
        *self = Self { n, k, i, count };
        None
    }
}

} // verus!
