//! The pool of credentials that requests are spread over, each credential
//! in proportion to what is left of its quota.

use vstd::prelude::*;
use rand::seq::SliceRandom;
use crate::deepl::models::DeepLConfiguration;
use crate::text::lemma_sum_fits;

verus! {

/// A credential with less than this left of its quota is not used.
pub const MIN_RESIDUAL: u64 = 20_000;

/// The number of slots that the pool shares out, but for rounding.
pub const POOL_SHARES: u64 = 100;

/// An API key, its endpoint, and what is left of its quota.
#[derive(Clone, Debug)]
pub struct Credential {
    pub config: DeepLConfiguration,
    /// Characters that the key may still translate.
    pub residual: u64,
}

/// The sum of the first `n` residuals.
pub open spec fn total_upto(residuals: Seq<int>, n: int) -> int
    decreases n,
{
    if n <= 0 {
        0
    } else {
        total_upto(residuals, n - 1) + residuals[n - 1]
    }
}

/// The sum of all residuals.
pub open spec fn total_of(residuals: Seq<int>) -> int {
    total_upto(residuals, residuals.len() as int)
}

/// The slots of a credential that has `residual` of a total of `total`
/// left: 100 times its share, rounded to the nearest whole number, and up
/// where it lies halfway. A credential with nothing left has no slot.
pub open spec fn weight(residual: int, total: int) -> int {
    let scaled = POOL_SHARES * residual;
    if residual <= 0 || total <= 0 {
        0
    } else {
        scaled / total + if 2 * (scaled % total) >= total {
            1int
        } else {
            0int
        }
    }
}

/// The weight is the whole number nearest to `100 * residual / total`.
pub proof fn law_weight_is_nearest(residual: int, total: int)
    requires
        0 <= residual <= total,
        0 < total,
    ensures
        0 <= weight(residual, total) <= POOL_SHARES,
        -total < 2 * (weight(residual, total) * total - POOL_SHARES * residual) <= total,
{
    let scaled = POOL_SHARES * residual;
    let q = scaled / total;
    let r = scaled % total;
    vstd::arithmetic::div_mod::lemma_fundamental_div_mod(scaled, total);
    vstd::arithmetic::div_mod::lemma_mod_bound(scaled, total);
    assert(scaled == total * q + r);
    assert(total * q == q * total) by (nonlinear_arith);
    assert((q + 1) * total == q * total + total) by (nonlinear_arith);
    assert(0 <= q) by (nonlinear_arith)
        requires
            scaled == total * q + r,
            0 <= r < total,
            0 <= scaled,
            0 < total,
    ;
    assert(scaled <= POOL_SHARES * total) by (nonlinear_arith)
        requires
            scaled == POOL_SHARES * residual,
            residual <= total,
    ;
    assert(q <= POOL_SHARES && (q == POOL_SHARES ==> r == 0)) by (nonlinear_arith)
        requires
            scaled == total * q + r,
            0 <= r < total,
            scaled <= POOL_SHARES * total,
            0 < total,
    ;
}

/// Computes the weight of a credential.
pub fn weight_of(residual: u64, total: u128) -> (w: usize)
    requires
        residual <= total,
    ensures
        w == weight(residual as int, total as int),
        w <= POOL_SHARES,
{
    if residual == 0 {
        return 0;
    }
    proof {
        law_weight_is_nearest(residual as int, total as int);
    }
    let scaled: u128 = 100u128 * (residual as u128);
    let q: u128 = scaled / total;
    let r: u128 = scaled % total;
    if r >= total - r {
        (q + 1) as usize
    } else {
        q as usize
    }
}

/// The residuals of a list of credentials.
pub open spec fn residuals_of(credentials: Seq<Credential>) -> Seq<int> {
    Seq::new(credentials.len(), |i: int| credentials[i].residual as int)
}

/// The credentials among the first `n` that have enough left to be used,
/// in their order.
pub open spec fn usable_upto(candidates: Seq<Credential>, n: int) -> Seq<Credential>
    decreases n,
{
    if n <= 0 {
        Seq::empty()
    } else if candidates[n - 1].residual >= MIN_RESIDUAL {
        usable_upto(candidates, n - 1).push(candidates[n - 1])
    } else {
        usable_upto(candidates, n - 1)
    }
}

/// Drops the credentials with less than `MIN_RESIDUAL` left.
pub fn usable(candidates: Vec<Credential>) -> (kept: Vec<Credential>)
    ensures
        kept@ == usable_upto(candidates@, candidates@.len() as int),
        forall|i: int| 0 <= i < kept@.len() ==> (#[trigger] kept@[i]).residual >= MIN_RESIDUAL,
{
    let ghost all = candidates@;
    let mut kept: Vec<Credential> = Vec::new();
    for candidate in it: candidates
        invariant
            it.seq() == all,
            kept@ == usable_upto(all, it.index() as int),
            forall|i: int| 0 <= i < kept@.len() ==> (#[trigger] kept@[i]).residual >= MIN_RESIDUAL,
    {
        if candidate.residual >= MIN_RESIDUAL {
            kept.push(candidate);
        }
    }
    kept
}

/// How often `c` stands among the first `n` slots.
pub open spec fn occurrences(slots: Seq<usize>, c: int, n: int) -> int
    decreases n,
{
    if n <= 0 {
        0
    } else {
        occurrences(slots, c, n - 1) + if slots[n - 1] == c {
            1int
        } else {
            0int
        }
    }
}

/// How often `c` stands among the slots.
pub open spec fn share(slots: Seq<usize>, c: int) -> int {
    occurrences(slots, c, slots.len() as int)
}

/// Whether the slots share the pool out by weight: every slot names a
/// credential, and every credential has as many slots as its weight says.
pub open spec fn shared_by_weight(slots: Seq<usize>, residuals: Seq<int>) -> bool {
    &&& forall|k: int| 0 <= k < slots.len() ==> 0 <= #[trigger] slots[k] < residuals.len()
    &&& forall|c: int|
        0 <= c < residuals.len() ==> #[trigger] share(slots, c) == weight(
            residuals[c],
            total_of(residuals),
        )
}

/// The count of a value in a sequence, said over its multiset.
pub proof fn lemma_share_is_count(slots: Seq<usize>, c: usize)
    ensures
        share(slots, c as int) == slots.to_multiset().count(c),
    decreases slots.len(),
{
    broadcast use vstd::seq_lib::group_to_multiset_ensures;

    if slots.len() > 0 {
        let head = slots.drop_last();
        lemma_share_is_count(head, c);
        lemma_occurrences_prefix(slots, head, c as int, head.len() as int);
        assert(slots =~= head.push(slots.last()));
    }
}

/// The count among the first `n` slots depends on those slots only.
pub proof fn lemma_occurrences_prefix(a: Seq<usize>, b: Seq<usize>, c: int, n: int)
    requires
        0 <= n <= a.len(),
        n <= b.len(),
        forall|k: int| 0 <= k < n ==> a[k] == b[k],
    ensures
        occurrences(a, c, n) == occurrences(b, c, n),
    decreases n,
{
    if n > 0 {
        lemma_occurrences_prefix(a, b, c, n - 1);
    }
}

/// Puts the slots into a random order, each order being as likely as any
/// other. This is `shuffle` of the crate `rand`, on the thread's generator:
/// it swaps slots and does nothing else, so that afterwards the same slots
/// are there, each as often as before.
#[verifier::external_body]
fn shuffle(slots: &mut Vec<usize>)
    ensures
        final(slots)@.to_multiset() == old(slots)@.to_multiset(),
{
    slots.shuffle(&mut rand::thread_rng());
}

/// Adds up what is left in the credentials.
fn sum_residuals(credentials: &Vec<Credential>) -> (total: u128)
    ensures
        total == total_of(residuals_of(credentials@)),
{
    let ghost res = residuals_of(credentials@);
    let mut total: u128 = 0;
    let mut i: usize = 0;
    while i < credentials.len()
        invariant
            i <= credentials@.len(),
            res == residuals_of(credentials@),
            total == total_upto(res, i as int),
            total <= i * 0xffff_ffff_ffff_ffff,
        decreases credentials.len() - i,
    {
        assert(res[i as int] == credentials@[i as int].residual);
        proof {
            lemma_sum_fits(i as int, total as int, credentials@[i as int].residual as int);
        }
        total = total + credentials[i].residual as u128;
        i += 1;
    }
    total
}

/// The slots before they are shuffled: for each credential in turn, as many
/// slots as its weight says.
fn slots_in_order(credentials: &Vec<Credential>) -> (slots: Vec<usize>)
    ensures
        shared_by_weight(slots@, residuals_of(credentials@)),
{
    let ghost res = residuals_of(credentials@);
    let total = sum_residuals(credentials);
    let mut slots: Vec<usize> = Vec::new();
    let mut i: usize = 0;
    while i < credentials.len()
        invariant
            i <= credentials@.len(),
            res == residuals_of(credentials@),
            total == total_of(res),
            forall|k: int| 0 <= k < slots@.len() ==> 0 <= #[trigger] slots@[k] < i,
            forall|c: int| 0 <= c < i ==> #[trigger] share(slots@, c) == weight(res[c], total as int),
        decreases credentials.len() - i,
    {
        let residual = credentials[i].residual;
        assert(res[i as int] == residual);
        proof {
            lemma_total_bounds(res, res.len() as int, i as int);
            lemma_occurrences_absent(slots@, i as int, slots@.len() as int);
        }
        let copies = weight_of(residual, total);
        let ghost before = slots@;
        let mut made: usize = 0;
        while made < copies
            invariant
                made <= copies,
                i < credentials@.len(),
                slots@.len() == before.len() + made,
                forall|k: int| 0 <= k < before.len() ==> slots@[k] == before[k],
                forall|k: int| before.len() <= k < slots@.len() ==> slots@[k] == i,
                forall|k: int| 0 <= k < slots@.len() ==> 0 <= #[trigger] slots@[k] <= i,
                share(slots@, i as int) == made,
                forall|c: int| 0 <= c < i ==> #[trigger] share(slots@, c) == share(before, c),
            decreases copies - made,
        {
            let ghost was = slots@;
            slots.push(i);
            proof {
                assert forall|c: int| 0 <= c <= i implies share(slots@, c) == share(was, c) + if c
                    == i {
                    1int
                } else {
                    0int
                } by {
                    lemma_occurrences_prefix(slots@, was, c, was.len() as int);
                }
            }
            made += 1;
        }
        i += 1;
    }
    slots
}

/// A value that no slot holds has no share.
proof fn lemma_occurrences_absent(slots: Seq<usize>, c: int, n: int)
    requires
        0 <= n <= slots.len(),
        forall|k: int| 0 <= k < n ==> slots[k] != c,
    ensures
        occurrences(slots, c, n) == 0,
    decreases n,
{
    if n > 0 {
        lemma_occurrences_absent(slots, c, n - 1);
    }
}

/// No residual is more than the total, where none is negative.
pub proof fn lemma_total_bounds(residuals: Seq<int>, n: int, i: int)
    requires
        0 <= i < n <= residuals.len(),
        forall|k: int| 0 <= k < residuals.len() ==> 0 <= #[trigger] residuals[k],
    ensures
        0 <= residuals[i] <= total_upto(residuals, n),
        0 <= total_upto(residuals, i) <= total_upto(residuals, n),
    decreases n,
{
    if i < n - 1 {
        lemma_total_bounds(residuals, n - 1, i);
    } else {
        lemma_total_nonnegative(residuals, n - 1);
    }
}

proof fn lemma_total_nonnegative(residuals: Seq<int>, n: int)
    requires
        0 <= n <= residuals.len(),
        forall|k: int| 0 <= k < residuals.len() ==> 0 <= #[trigger] residuals[k],
    ensures
        0 <= total_upto(residuals, n),
    decreases n,
{
    if n > 0 {
        lemma_total_nonnegative(residuals, n - 1);
    }
}

/// The credentials in use and the order in which requests go to them.
#[derive(Clone, Debug)]
pub struct CredentialPool {
    credentials: Vec<Credential>,
    slots: Vec<usize>,
}

impl CredentialPool {
    /// The credentials of the pool.
    pub closed spec fn credentials(&self) -> Seq<Credential> {
        self.credentials@
    }

    /// The dispatch order: each slot names a credential by its index.
    pub closed spec fn slots(&self) -> Seq<usize> {
        self.slots@
    }

    /// Every slot names a credential of the pool.
    pub open spec fn wf(&self) -> bool {
        forall|k: int|
            0 <= k < self.slots().len() ==> 0 <= #[trigger] self.slots()[k]
                < self.credentials().len()
    }

    /// The index of the credential that serves job `id`; meaningful while
    /// the pool has slots.
    pub open spec fn spec_route(&self, id: int) -> int {
        self.slots()[id % (self.slots().len() as int)] as int
    }

    /// Builds the pool from the credentials found. Those with less than
    /// `MIN_RESIDUAL` left are dropped; each of the others gets slots by
    /// its weight; the slots are then put into a random order.
    pub fn build(candidates: Vec<Credential>) -> (pool: CredentialPool)
        ensures
            pool.wf(),
            pool.credentials() == usable_upto(candidates@, candidates@.len() as int),
            shared_by_weight(pool.slots(), residuals_of(pool.credentials())),
    {
        let credentials = usable(candidates);
        let mut slots = slots_in_order(&credentials);
        let ghost ordered = slots@;
        shuffle(&mut slots);
        proof {
            lemma_same_slots(ordered, slots@, residuals_of(credentials@));
        }
        CredentialPool { credentials, slots }
    }

    /// The pool over `credentials` with the dispatch order `order`, if that
    /// order is one that `build` could have drawn: `None` unless every
    /// credential has at least `MIN_RESIDUAL` left, every slot names one of
    /// them, and each has as many slots as its weight says.
    pub fn from_order(credentials: Vec<Credential>, order: Vec<usize>) -> (pool: Option<
        CredentialPool,
    >)
        ensures
            pool is Some <==> {
                &&& forall|i: int|
                    0 <= i < credentials@.len() ==> (#[trigger] credentials@[i]).residual
                        >= MIN_RESIDUAL
                &&& shared_by_weight(order@, residuals_of(credentials@))
            },
            pool matches Some(p) ==> p.wf() && p.credentials() == credentials@ && p.slots()
                == order@,
    {
        let mut i: usize = 0;
        while i < credentials.len()
            invariant
                i <= credentials@.len(),
                forall|j: int| 0 <= j < i ==> (#[trigger] credentials@[j]).residual >= MIN_RESIDUAL,
            decreases credentials.len() - i,
        {
            if credentials[i].residual < MIN_RESIDUAL {
                return None;
            }
            i += 1;
        }
        let expected = slots_in_order(&credentials);
        let ghost res = residuals_of(credentials@);
        i = 0;
        while i < order.len()
            invariant
                i <= order@.len(),
                forall|k: int| 0 <= k < i ==> 0 <= #[trigger] order@[k] < credentials@.len(),
            decreases order.len() - i,
        {
            if order[i] >= credentials.len() {
                return None;
            }
            i += 1;
        }
        i = 0;
        while i < credentials.len()
            invariant
                i <= credentials@.len(),
                res == residuals_of(credentials@),
                shared_by_weight(expected@, res),
                forall|c: int| 0 <= c < i ==> #[trigger] share(order@, c) == weight(res[c], total_of(res)),
            decreases credentials.len() - i,
        {
            let have = count_slots(&order, i);
            let want = count_slots(&expected, i);
            assert(share(expected@, i as int) == weight(res[i as int], total_of(res)));
            if have != want {
                return None;
            }
            i += 1;
        }
        Some(CredentialPool { credentials, slots: order })
    }

    /// The pool of one credential that serves every job.
    pub fn single(config: DeepLConfiguration) -> (pool: CredentialPool)
        ensures
            pool.wf(),
            pool.credentials().len() == 1,
            pool.credentials()[0].config == config,
            pool.slots() == seq![0usize],
    {
        let mut credentials: Vec<Credential> = Vec::new();
        credentials.push(Credential { config, residual: 0 });
        let mut slots: Vec<usize> = Vec::new();
        slots.push(0);
        CredentialPool { credentials, slots }
    }

    /// The credential that the questions before the run are put with: the
    /// first of the pool. `None` for a pool without credentials.
    pub fn primary(&self) -> (credential: Option<&Credential>)
        ensures
            credential is None <==> self.credentials().len() == 0,
            credential matches Some(c) ==> *c == self.credentials()[0],
    {
        if self.credentials.len() == 0 {
            None
        } else {
            Some(&self.credentials[0])
        }
    }

    /// Number of slots.
    pub fn len(&self) -> (n: usize)
        ensures
            n == self.slots().len(),
    {
        self.slots.len()
    }

    /// Whether the pool has no slot, and so can serve no job.
    pub fn is_empty(&self) -> (b: bool)
        ensures
            b == (self.slots().len() == 0),
    {
        self.slots.len() == 0
    }

    /// The credential that serves job `id`: the one in slot `id mod len`.
    /// `None` only for a pool without slots.
    pub fn route(&self, id: usize) -> (credential: Option<&Credential>)
        requires
            self.wf(),
        ensures
            credential is None <==> self.slots().len() == 0,
            credential matches Some(c) ==> 0 <= self.spec_route(id as int)
                < self.credentials().len() && *c == self.credentials()[self.spec_route(id as int)],
    {
        if self.slots.len() == 0 {
            None
        } else {
            let slot = id % self.slots.len();
            assert(0 <= self.slots()[slot as int] < self.credentials().len());
            Some(&self.credentials[self.slots[slot]])
        }
    }

    /// What is left in all credentials of the pool together.
    pub fn total_residual(&self) -> (total: u128)
        ensures
            total == total_of(residuals_of(self.credentials())),
    {
        sum_residuals(&self.credentials)
    }
}

/// Counts how often `c` stands among the slots.
fn count_slots(slots: &Vec<usize>, c: usize) -> (n: usize)
    ensures
        n == share(slots@, c as int),
{
    let mut n: usize = 0;
    let mut k: usize = 0;
    while k < slots.len()
        invariant
            k <= slots@.len(),
            n == occurrences(slots@, c as int, k as int),
            n <= k,
        decreases slots.len() - k,
    {
        if slots[k] == c {
            n += 1;
        }
        k += 1;
    }
    n
}

/// A list that holds the same slots as one that is shared by weight, each as
/// often, is shared by weight too.
proof fn lemma_same_slots(ordered: Seq<usize>, shuffled: Seq<usize>, residuals: Seq<int>)
    requires
        shared_by_weight(ordered, residuals),
        shuffled.to_multiset() == ordered.to_multiset(),
    ensures
        shared_by_weight(shuffled, residuals),
{
    broadcast use vstd::seq_lib::group_to_multiset_ensures;

    assert forall|k: int| 0 <= k < shuffled.len() implies 0 <= #[trigger] shuffled[k]
        < residuals.len() by {
        let v = shuffled[k];
        assert(shuffled.to_multiset().count(v) > 0);
        assert(ordered.to_multiset().count(v) > 0);
        assert(ordered.contains(v));
        let j = choose|j: int| 0 <= j < ordered.len() && ordered[j] == v;
        assert(0 <= ordered[j] < residuals.len());
    }
    assert forall|c: int| 0 <= c < residuals.len() implies #[trigger] share(shuffled, c) == weight(
        residuals[c],
        total_of(residuals),
    ) by {
        lemma_share_of_index(ordered, c);
        lemma_share_of_index(shuffled, c);
    }
}

/// The share of an index, said over the multiset of slots.
proof fn lemma_share_of_index(slots: Seq<usize>, c: int)
    requires
        0 <= c,
    ensures
        c <= usize::MAX ==> share(slots, c) == slots.to_multiset().count(c as usize),
        c > usize::MAX ==> share(slots, c) == 0,
{
    if c <= usize::MAX {
        lemma_share_is_count(slots, c as usize);
    } else {
        lemma_occurrences_absent(slots, c, slots.len() as int);
    }
}

/// How many of the jobs with an id below `n` go to credential `c`.
pub open spec fn routed(slots: Seq<usize>, c: int, n: int) -> int
    decreases n,
{
    if n <= 0 {
        0
    } else {
        routed(slots, c, n - 1) + if slots[(n - 1) % (slots.len() as int)] == c {
            1int
        } else {
            0int
        }
    }
}

proof fn lemma_routed_round(slots: Seq<usize>, c: int, rounds: int, j: int)
    requires
        slots.len() > 0,
        0 <= rounds,
        0 <= j <= slots.len(),
    ensures
        routed(slots, c, rounds * slots.len() + j) == routed(slots, c, rounds * slots.len())
            + occurrences(slots, c, j),
    decreases j,
{
    let len = slots.len() as int;
    assert(rounds * len >= 0) by (nonlinear_arith)
        requires
            rounds >= 0,
            len > 0,
    ;
    if j > 0 {
        lemma_routed_round(slots, c, rounds, j - 1);
        vstd::arithmetic::div_mod::lemma_mod_multiples_vanish(rounds, j - 1, len);
        vstd::arithmetic::div_mod::lemma_small_mod((j - 1) as nat, len as nat);
        assert(len * rounds == rounds * len) by (nonlinear_arith);
        assert((rounds * len + j - 1) % len == j - 1);
    }
}

/// Load follows weight. Over any whole number of rounds through the pool,
/// each credential serves exactly as many jobs per round as it has slots,
/// so its share of the jobs is its share of the slots.
pub proof fn law_proportional_load(slots: Seq<usize>, c: int, rounds: int)
    requires
        slots.len() > 0,
        0 <= rounds,
    ensures
        routed(slots, c, rounds * slots.len()) == rounds * share(slots, c),
    decreases rounds,
{
    let len = slots.len() as int;
    if rounds == 0 {
        assert(rounds * len == 0);
        assert(rounds * share(slots, c) == 0);
    } else {
        law_proportional_load(slots, c, rounds - 1);
        lemma_routed_round(slots, c, rounds - 1, len);
        assert((rounds - 1) * len + len == rounds * len) by (nonlinear_arith);
        assert((rounds - 1) * share(slots, c) + share(slots, c) == rounds * share(slots, c))
            by (nonlinear_arith);
    }
}

/// The count among the first slots is not negative, not more than the
/// number of slots looked at, and not more than the count among more.
proof fn lemma_occurrences_bounds(slots: Seq<usize>, c: int, n: int, m: int)
    requires
        0 <= n <= m <= slots.len(),
    ensures
        0 <= occurrences(slots, c, n) <= n,
        occurrences(slots, c, n) <= occurrences(slots, c, m),
    decreases m,
{
    if n < m {
        lemma_occurrences_bounds(slots, c, n, m - 1);
    } else if n > 0 {
        lemma_occurrences_bounds(slots, c, n - 1, n - 1);
    }
}

/// Load follows weight at every moment, not only after whole rounds. Of
/// the jobs with an id below `n`, a credential serves its slots once for
/// every whole round and, of the round begun, the slots that were reached.
/// So the jobs it has served differ from its share `n * k / len`, where it
/// holds `k` of the `len` slots, by less than `k`; and its part of the
/// jobs comes as near to `k / len` as one likes as `n` grows.
pub proof fn law_load_within_a_round(slots: Seq<usize>, c: int, n: int)
    requires
        slots.len() > 0,
        0 <= n,
    ensures
        routed(slots, c, n) == (n / (slots.len() as int)) * share(slots, c) + occurrences(
            slots,
            c,
            n % (slots.len() as int),
        ),
        0 <= occurrences(slots, c, n % (slots.len() as int)) <= share(slots, c),
        share(slots, c) == 0 ==> routed(slots, c, n) == 0,
        share(slots, c) > 0 ==> -share(slots, c) * slots.len() < slots.len() * routed(slots, c, n)
            - n * share(slots, c) < share(slots, c) * slots.len(),
{
    let len = slots.len() as int;
    let k = share(slots, c);
    let q = n / len;
    let r = n % len;
    let o = occurrences(slots, c, r);
    vstd::arithmetic::div_mod::lemma_fundamental_div_mod(n, len);
    vstd::arithmetic::div_mod::lemma_mod_bound(n, len);
    assert(0 <= q) by (nonlinear_arith)
        requires
            n == len * q + r,
            0 <= r < len,
            0 <= n,
    ;
    assert(len * q == q * len) by (nonlinear_arith);
    law_proportional_load(slots, c, q);
    lemma_routed_round(slots, c, q, r);
    lemma_occurrences_bounds(slots, c, r, len);
    assert(len * (q * k + o) - (len * q + r) * k == len * o - r * k) by (nonlinear_arith);
    if k > 0 {
        assert(-k * len < len * o - r * k < k * len) by (nonlinear_arith)
            requires
                0 <= o <= k,
                o <= r,
                0 <= r < len,
                0 < k,
        ;
    } else {
        assert(q * k == 0) by (nonlinear_arith)
            requires
                k == 0,
        ;
    }
}

/// A credential with too little left is never used: every job of a pool
/// that was built goes to a credential with at least `MIN_RESIDUAL` left.
pub proof fn law_low_credentials_excluded(candidates: Seq<Credential>, n: int)
    requires
        0 <= n <= candidates.len(),
    ensures
        forall|i: int|
            0 <= i < usable_upto(candidates, n).len() ==> (#[trigger] usable_upto(
                candidates,
                n,
            )[i]).residual >= MIN_RESIDUAL,
        forall|k: int|
            0 <= k < n && (#[trigger] candidates[k]).residual >= MIN_RESIDUAL ==> usable_upto(
                candidates,
                n,
            ).contains(candidates[k]),
    decreases n,
{
    if n > 0 {
        law_low_credentials_excluded(candidates, n - 1);
        let head = usable_upto(candidates, n - 1);
        assert forall|k: int|
            0 <= k < n && (#[trigger] candidates[k]).residual
                >= MIN_RESIDUAL implies usable_upto(candidates, n).contains(candidates[k]) by {
            if k < n - 1 {
                let j = choose|j: int| 0 <= j < head.len() && head[j] == candidates[k];
                assert(usable_upto(candidates, n)[j] == candidates[k]);
            } else {
                assert(usable_upto(candidates, n)[head.len() as int] == candidates[k]);
            }
        }
    }
}

} // verus!
