use vstd::prelude::*;

verus! {

/// Virtual base of the kernel heap.
pub const HEAP_START: u64 = 0x4444_4444_0000;

/// Length in bytes of the kernel heap.
pub const HEAP_SIZE: u64 = 100 * 1024;

/// Smallest block the heap hands out.
pub const MIN_BLOCK: u64 = 8;

/// `[a, a + la)` and `[b, b + lb)` share no byte.
pub open spec fn disjoint(a: int, la: int, b: int, lb: int) -> bool {
    a + la <= b || b + lb <= a
}

pub open spec fn pow2(k: nat) -> nat
    decreases k,
{
    if k == 0 {
        1
    } else {
        2 * pow2((k - 1) as nat)
    }
}

pub open spec fn is_power_of_two(x: nat) -> bool {
    exists|k: nat| pow2(k) == x
}

/// The first of `b`, `2b`, `4b`, ... that is at least `need`.
pub open spec fn block_from(b: nat, need: nat) -> nat
    decreases (if need > b { need - b } else { 0 }),
{
    if b == 0 || b >= need {
        b
    } else {
        block_from(2 * b, need)
    }
}

/// Bytes of the block that serves a request: the smallest power of two
/// that is at least the size, the alignment and the minimum block.
pub open spec fn block_size(size: nat, align: nat) -> nat {
    let need = if size >= align {
        size
    } else {
        align
    };
    block_from(MIN_BLOCK as nat, if need >= MIN_BLOCK { need } else { MIN_BLOCK as nat })
}

/// `x` rounded up to a multiple of `b`.
pub open spec fn align_up(x: int, b: int) -> int {
    if x % b == 0 {
        x
    } else {
        x - x % b + b
    }
}

/// `i` is the first entry of the free list that holds a block of `b` bytes.
pub open spec fn first_free_of(free: Seq<(u64, u64)>, b: nat, i: int) -> bool {
    &&& 0 <= i < free.len()
    &&& free[i].1 == b
    &&& forall|j: int| 0 <= j < i ==> #[trigger] free[j].1 != b
}

proof fn lemma_block_from(b: nat, need: nat)
    requires
        b > 0,
    ensures
        block_from(b, need) >= b,
        block_from(b, need) >= need,
        block_from(b, need) % b == 0,
        is_power_of_two(b) ==> is_power_of_two(block_from(b, need)),
    decreases (if need > b { need - b } else { 0 }),
{
    if b < need {
        lemma_block_from(2 * b, need);
        let r = block_from(2 * b, need);
        assert(r % b == 0) by {
            vstd::arithmetic::div_mod::lemma_mod_mod(r as int, b as int, 2);
            assert((b as int) * 2 == 2 * b);
            assert((r as int) % ((b as int) * 2) == 0);
            assert((0 as int) % (b as int) == 0);
            assert((r as int) % (b as int) == 0);
        }
        if is_power_of_two(b) {
            let k = choose|k: nat| pow2(k) == b;
            assert(pow2(k + 1) == 2 * b);
        }
    }
}

proof fn lemma_pow2_positive(k: nat)
    ensures
        pow2(k) > 0,
    decreases k,
{
    if k > 0 {
        lemma_pow2_positive((k - 1) as nat);
    }
}

/// A smaller power of two divides a larger one.
proof fn lemma_pow2_divides(j: nat, k: nat)
    requires
        pow2(j) <= pow2(k),
    ensures
        pow2(k) % pow2(j) == 0,
    decreases k,
{
    lemma_pow2_positive(j);
    lemma_pow2_positive(k);
    if pow2(j) == pow2(k) {
        vstd::arithmetic::div_mod::lemma_mod_self_0(pow2(k) as int);
    }
    if pow2(j) < pow2(k) {
        if k == 0 {
        } else {
            let k1 = (k - 1) as nat;
            lemma_pow2_positive(k1);
            if pow2(j) <= pow2(k1) {
                lemma_pow2_divides(j, k1);
                assert(pow2(k) == pow2(k1) * 2);
                vstd::arithmetic::div_mod::lemma_fundamental_div_mod(pow2(k1) as int, pow2(j) as int);
                let q = pow2(k1) as int / pow2(j) as int;
                assert(pow2(k) == pow2(j) * (2 * q)) by (nonlinear_arith)
                    requires pow2(k1) == pow2(j) * q, pow2(k) == pow2(k1) * 2;
                vstd::arithmetic::div_mod::lemma_mod_multiples_basic(2 * q, pow2(j) as int);
                assert((2 * q) * pow2(j) == pow2(j) * (2 * q)) by (nonlinear_arith);
            } else {
                // pow2(k1) < pow2(j) < 2 * pow2(k1) holds of no power of two
                lemma_pow2_between(j, k1);
            }
        }
    }
}

/// No power of two lies strictly between `2^k` and `2^(k+1)`.
proof fn lemma_pow2_between(j: nat, k: nat)
    ensures
        !(pow2(k) < pow2(j) && pow2(j) < 2 * pow2(k)),
    decreases j + k,
{
    lemma_pow2_positive(j);
    lemma_pow2_positive(k);
    if j > 0 && k > 0 {
        lemma_pow2_between((j - 1) as nat, (k - 1) as nat);
    } else if j == 0 {
    } else {
        let j1 = (j - 1) as nat;
        lemma_pow2_positive(j1);
    }
}

/// A multiple of a power of two is a multiple of every smaller one.
proof fn lemma_aligned_to_smaller(a: nat, b: nat, c: nat)
    requires
        is_power_of_two(b),
        is_power_of_two(c),
        c <= b,
        a % b == 0,
    ensures
        a % c == 0,
{
    let kb = choose|k: nat| pow2(k) == b;
    let kc = choose|k: nat| pow2(k) == c;
    lemma_pow2_divides(kc, kb);
    lemma_pow2_positive(kc);
    vstd::arithmetic::div_mod::lemma_fundamental_div_mod(a as int, b as int);
    vstd::arithmetic::div_mod::lemma_fundamental_div_mod(b as int, c as int);
    let m = a as int / b as int;
    let n = b as int / c as int;
    assert(a == c * (n * m)) by (nonlinear_arith)
        requires a == b * m, b == c * n;
    vstd::arithmetic::div_mod::lemma_mod_multiples_basic(n * m, c as int);
    assert((n * m) * c == c * (n * m)) by (nonlinear_arith);
}

/// Computes `block_size(size, align)`, or `None` where it exceeds `u64`.
fn block_for(size: u64, align: u64) -> (r: Option<u64>)
    ensures
        r matches Some(b) ==> b as nat == block_size(size as nat, align as nat),
        r is None ==> block_size(size as nat, align as nat) > u64::MAX,
{
    let mut need = size;
    if align > need {
        need = align;
    }
    if MIN_BLOCK > need {
        need = MIN_BLOCK;
    }
    let mut block: u64 = MIN_BLOCK;
    while block < need
        invariant
            block > 0,
            need >= MIN_BLOCK,
            block <= 2 * need,
            block_from(block as nat, need as nat) == block_size(size as nat, align as nat),
        decreases 2 * need - block,
    {
        if block > u64::MAX / 2 {
            proof {
                lemma_block_from((2 * block) as nat, need as nat);
            }
            return None;
        }
        block = block * 2;
    }
    Some(block)
}

/// The kernel heap over `[start, end)`. Each request is served by a
/// power-of-two block aligned to its own size: a freed block of that size
/// when one is on the free list, else a new block cut at the bump pointer.
/// Blocks are never split or merged.
pub struct Heap {
    start: u64,
    end: u64,
    next: u64,
    free: Vec<(u64, u64)>,
    live: Ghost<Map<u64, nat>>,
}

impl Heap {
    pub closed spec fn heap_start(self) -> nat {
        self.start as nat
    }

    pub closed spec fn heap_end(self) -> nat {
        self.end as nat
    }

    /// The bump pointer: no block has been cut at or above it.
    pub closed spec fn bump(self) -> nat {
        self.next as nat
    }

    /// Blocks freed and waiting for reuse, as (address, bytes).
    pub closed spec fn free_blocks(self) -> Seq<(u64, u64)> {
        self.free@
    }

    /// Live allocations: address to the bytes of the block behind it.
    pub closed spec fn live(self) -> Map<u64, nat> {
        self.live@
    }

    pub closed spec fn wf(self) -> bool {
        &&& self.start <= self.next <= self.end
        &&& forall|a: u64| #[trigger]
            self.live@.contains_key(a) ==> self.start <= a && a + self.live@[a] <= self.next
                && self.live@[a] > 0 && (a as nat) % self.live@[a] == 0
        &&& forall|i: int|
            0 <= i < self.free@.len() ==> self.start <= (#[trigger] self.free@[i]).0 && self.free@[i].0
                + self.free@[i].1 <= self.next && self.free@[i].1 > 0 && self.free@[i].0
                % self.free@[i].1 == 0
        &&& forall|a: u64, b: u64|
            #[trigger] self.live@.contains_key(a) && #[trigger] self.live@.contains_key(b) && a
                != b ==> disjoint(a as int, self.live@[a] as int, b as int, self.live@[b] as int)
        &&& forall|i: int, j: int|
            0 <= i < self.free@.len() && 0 <= j < self.free@.len() && i != j ==> disjoint(
                (#[trigger] self.free@[i]).0 as int,
                self.free@[i].1 as int,
                (#[trigger] self.free@[j]).0 as int,
                self.free@[j].1 as int,
            )
        &&& forall|a: u64, i: int|
            #[trigger] self.live@.contains_key(a) && 0 <= i < self.free@.len() ==> disjoint(
                a as int,
                self.live@[a] as int,
                (#[trigger] self.free@[i]).0 as int,
                self.free@[i].1 as int,
            )
    }

    /// A heap over the `size` bytes at `start`, with nothing allocated.
    pub fn new(start: u64, size: u64) -> (r: Self)
        requires
            start + size <= u64::MAX,
        ensures
            r.wf(),
            r.heap_start() == start,
            r.heap_end() == start + size,
            r.bump() == start,
            r.free_blocks() == Seq::<(u64, u64)>::empty(),
            r.live() == Map::<u64, nat>::empty(),
    {
        Heap { start, end: start + size, next: start, free: Vec::new(), live: Ghost(Map::empty()) }
    }

    /// Allocates `size` bytes aligned to `align`. Returns `None` when no
    /// block of the needed size is free and none fits above the bump
    /// pointer; the caller treats that as fatal.
    pub fn allocate(&mut self, size: u64, align: u64) -> (r: Option<u64>)
        requires
            old(self).wf(),
        ensures
            final(self).wf(),
            final(self).heap_start() == old(self).heap_start(),
            final(self).heap_end() == old(self).heap_end(),
            ({
                let b = block_size(size as nat, align as nat);
                match r {
                    Some(a) => {
                        &&& (a as nat) % b == 0
                        &&& is_power_of_two(align as nat) ==> (a as nat) % (align as nat) == 0
                        &&& old(self).heap_start() <= a
                        &&& a + b <= old(self).heap_end()
                        &&& !old(self).live().contains_key(a)
                        &&& final(self).live() == old(self).live().insert(a, b)
                        &&& forall|c: u64| #[trigger]
                            old(self).live().contains_key(c) ==> disjoint(
                                a as int,
                                b as int,
                                c as int,
                                old(self).live()[c] as int,
                            )
                        &&& (exists|i: int| first_free_of(old(self).free_blocks(), b, i))
                            ==> (exists|i: int|
                            first_free_of(old(self).free_blocks(), b, i)
                                && old(self).free_blocks()[i].0 == a
                                && final(self).free_blocks() == old(self).free_blocks().remove(i)
                                && final(self).bump() == old(self).bump())
                        &&& !(exists|i: int| first_free_of(old(self).free_blocks(), b, i))
                            ==> a == align_up(old(self).bump() as int, b as int)
                                && final(self).bump() == a + b
                                && final(self).free_blocks() == old(self).free_blocks()
                    },
                    None => {
                        &&& !(exists|i: int| first_free_of(old(self).free_blocks(), b, i))
                        &&& align_up(old(self).bump() as int, b as int) + b > old(self).heap_end()
                        &&& *final(self) == *old(self)
                    },
                }
            }),
    {
        let ghost b_spec = block_size(size as nat, align as nat);
        let block = match block_for(size, align) {
            Some(block) => block,
            None => {
                proof {
                    self.lemma_no_free_block_of(b_spec);
                    lemma_align_up_bound(self.next as int, b_spec as int);
                }
                return None;
            },
        };
        proof {
            let need = if size >= align { size as nat } else { align as nat };
            let need = if need >= MIN_BLOCK { need } else { MIN_BLOCK as nat };
            lemma_block_from(MIN_BLOCK as nat, need);
            reveal_with_fuel(pow2, 4);
            assert(pow2(3) == 8);
        }
        let mut i: usize = 0;
        while i < self.free.len()
            invariant
                *self == *old(self),
                self.wf(),
                block as nat == b_spec,
                b_spec == block_size(size as nat, align as nat),
                is_power_of_two(b_spec),
                b_spec >= align,
                block > 0,
                0 <= i <= self.free@.len(),
                forall|j: int| 0 <= j < i ==> #[trigger] self.free@[j].1 != block,
            decreases self.free@.len() - i,
        {
            if self.free[i].1 == block {
                let a = self.free[i].0;
                let ghost old_free = self.free@;
                assert(first_free_of(old_free, b_spec, i as int));
                assert(old_free[i as int].0 + old_free[i as int].1 <= self.next);
                assert(old_free[i as int].0 % old_free[i as int].1 == 0);
                self.free.remove(i);
                self.live = Ghost(self.live@.insert(a, block as nat));
                proof {
                    assert forall|c: u64| #[trigger]
                        old(self).live().contains_key(c) implies disjoint(
                        a as int,
                        b_spec as int,
                        c as int,
                        old(self).live()[c] as int,
                    ) by {
                        assert(old_free[i as int].0 == a);
                    }
                    assert forall|k: int|
                        0 <= k < self.free@.len() implies self.start <= (
                        #[trigger] self.free@[k]).0 && self.free@[k].0 + self.free@[k].1
                        <= self.next && self.free@[k].1 > 0 && self.free@[k].0 % self.free@[k].1
                        == 0 by {
                        if k < i {
                            assert(self.free@[k] == old_free[k]);
                        } else {
                            assert(self.free@[k] == old_free[k + 1]);
                        }
                    }
                    assert forall|k: int, l: int|
                        0 <= k < self.free@.len() && 0 <= l < self.free@.len() && k != l
                            implies disjoint(
                        (#[trigger] self.free@[k]).0 as int,
                        self.free@[k].1 as int,
                        (#[trigger] self.free@[l]).0 as int,
                        self.free@[l].1 as int,
                    ) by {
                        let k0 = if k < i { k } else { k + 1 };
                        let l0 = if l < i { l } else { l + 1 };
                        assert(self.free@[k] == old_free[k0]);
                        assert(self.free@[l] == old_free[l0]);
                    }
                    assert forall|c: u64, k: int|
                        #[trigger] self.live@.contains_key(c) && 0 <= k < self.free@.len()
                            implies disjoint(
                        c as int,
                        self.live@[c] as int,
                        (#[trigger] self.free@[k]).0 as int,
                        self.free@[k].1 as int,
                    ) by {
                        let k0 = if k < i { k } else { k + 1 };
                        assert(self.free@[k] == old_free[k0]);
                        if c == a {
                            assert(old_free[i as int].0 == a);
                        }
                    }
                    assert forall|c: u64, d: u64|
                        #[trigger] self.live@.contains_key(c) && #[trigger] self.live@.contains_key(d)
                            && c != d implies disjoint(
                        c as int,
                        self.live@[c] as int,
                        d as int,
                        self.live@[d] as int,
                    ) by {
                        assert(old_free[i as int].0 == a);
                    }
                    assert forall|j: int| first_free_of(old_free, b_spec, j) implies j == i by {
                        if j < i {
                            assert(old_free[j].1 != block);
                        }
                        if j > i {
                            assert(old_free[i as int].1 == block);
                        }
                    }
                    assert(!old(self).live().contains_key(a)) by {
                        if old(self).live().contains_key(a) {
                            assert(disjoint(
                                a as int,
                                old(self).live()[a] as int,
                                old_free[i as int].0 as int,
                                old_free[i as int].1 as int,
                            ));
                        }
                    }
                    if is_power_of_two(align as nat) {
                        lemma_aligned_to_smaller(a as nat, b_spec, align as nat);
                    }
                }
                return Some(a);
            }
            i = i + 1;
        }
        proof {
            assert forall|j: int| !first_free_of(self.free@, b_spec, j) by {
                if 0 <= j < self.free@.len() && self.free@[j].1 == b_spec {
                    assert(self.free@[j].1 != block);
                }
            }
        }
        let rem = self.next % block;
        proof {
            vstd::arithmetic::div_mod::lemma_mod_decreases(self.next as nat, block as nat);
        }
        let base = self.next - rem;
        let a: u64;
        if rem == 0 {
            a = self.next;
        } else {
            if base > u64::MAX - block {
                return None;
            }
            a = base + block;
        }
        if a > self.end || self.end - a < block {
            return None;
        }
        proof {
            assert(a % block == 0) by {
                vstd::arithmetic::div_mod::lemma_fundamental_div_mod(self.next as int, block as int);
                vstd::arithmetic::div_mod::lemma_mod_multiples_basic(
                    self.next as int / block as int,
                    block as int,
                );
                if rem != 0 {
                    vstd::arithmetic::div_mod::lemma_mod_multiples_basic(
                        self.next as int / block as int + 1,
                        block as int,
                    );
                    assert((self.next as int / block as int + 1) * block == base + block) by (nonlinear_arith)
                        requires base == (self.next as int / block as int) * block;
                }
            }
            assert forall|c: u64| #[trigger]
                old(self).live().contains_key(c) implies disjoint(
                a as int,
                b_spec as int,
                c as int,
                old(self).live()[c] as int,
            ) by {}
        }
        proof {
            if is_power_of_two(align as nat) {
                lemma_aligned_to_smaller(a as nat, b_spec, align as nat);
            }
        }
        self.next = a + block;
        self.live = Ghost(self.live@.insert(a, block as nat));
        Some(a)
    }

    /// No entry of the free list holds a block larger than `u64::MAX`.
    proof fn lemma_no_free_block_of(self, b: nat)
        requires
            b > u64::MAX,
        ensures
            !(exists|i: int| first_free_of(self.free@, b, i)),
    {
        assert forall|i: int| !first_free_of(self.free@, b, i) by {
            if 0 <= i < self.free@.len() {
                assert(self.free@[i].1 <= u64::MAX);
            }
        }
    }

    /// Returns the block at `addr`, allocated for `size` bytes aligned to
    /// `align`, to the free list.
    pub fn deallocate(&mut self, addr: u64, size: u64, align: u64)
        requires
            old(self).wf(),
            old(self).live().contains_key(addr),
            old(self).live()[addr] == block_size(size as nat, align as nat),
        ensures
            final(self).wf(),
            final(self).heap_start() == old(self).heap_start(),
            final(self).heap_end() == old(self).heap_end(),
            final(self).bump() == old(self).bump(),
            final(self).live() == old(self).live().remove(addr),
            final(self).free_blocks() == old(self).free_blocks().push(
                (addr, block_size(size as nat, align as nat) as u64),
            ),
    {
        let block = match block_for(size, align) {
            Some(block) => block,
            None => {
                proof {
                    assert(self.live@[addr] <= self.next);
                }
                return;
            },
        };
        let ghost old_free = self.free@;
        self.free.push((addr, block));
        self.live = Ghost(self.live@.remove(addr));
        proof {
            let n = old_free.len() as int;
            assert(self.free@[n] == (addr, block));
            assert forall|k: int, l: int|
                0 <= k < self.free@.len() && 0 <= l < self.free@.len() && k != l implies disjoint(
                (#[trigger] self.free@[k]).0 as int,
                self.free@[k].1 as int,
                (#[trigger] self.free@[l]).0 as int,
                self.free@[l].1 as int,
            ) by {
                if k < n {
                    assert(self.free@[k] == old_free[k]);
                }
                if l < n {
                    assert(self.free@[l] == old_free[l]);
                }
                if k == n {
                    assert(old(self).live@.contains_key(addr));
                }
                if l == n {
                    assert(old(self).live@.contains_key(addr));
                }
            }
            assert forall|c: u64, k: int|
                #[trigger] self.live@.contains_key(c) && 0 <= k < self.free@.len() implies disjoint(
                c as int,
                self.live@[c] as int,
                (#[trigger] self.free@[k]).0 as int,
                self.free@[k].1 as int,
            ) by {
                if k < n {
                    assert(self.free@[k] == old_free[k]);
                } else {
                    assert(old(self).live@.contains_key(addr));
                    assert(old(self).live@.contains_key(c));
                }
            }
        }
    }
}

/// Rounding up to a multiple of `b` never moves below `x`.
proof fn lemma_align_up_bound(x: int, b: int)
    requires
        x >= 0,
        b > 0,
    ensures
        align_up(x, b) >= x,
{
}

/// Any two distinct live allocations of a well-formed heap share no byte,
/// however the allocations and frees that led to it were interleaved: each
/// of `allocate` and `deallocate` keeps the heap well formed.
pub proof fn lemma_live_allocations_disjoint(h: Heap, a: u64, b: u64)
    requires
        h.wf(),
        h.live().contains_key(a),
        h.live().contains_key(b),
        a != b,
    ensures
        disjoint(a as int, h.live()[a] as int, b as int, h.live()[b] as int),
{
}

} // verus!
