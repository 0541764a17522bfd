use vstd::prelude::*;

use crate::Transaction;
use crate::amount::{
    Amount, is_dec_digits, parsed_factor, u256_checked_add, u256_checked_mul, u256_limit,
};

verus! {

/// The fee of one transaction: gas price times gas used, each field parsed
/// leniently (a malformed field counts as zero). A product that does not fit
/// in 256 bits is dropped: the transaction contributes nothing.
pub open spec fn tx_fee(t: Transaction) -> nat {
    let p = parsed_factor(t.gasPrice@);
    let u = parsed_factor(t.gasUsed@);
    if p * u < u256_limit() {
        p * u
    } else {
        0
    }
}

/// What one transaction adds to the running total of `addr`.
pub open spec fn fee_contribution(t: Transaction, addr: Seq<char>) -> nat {
    if t.from@ == addr {
        tx_fee(t)
    } else {
        0
    }
}

/// The total fee of all transactions in `txs` whose sender is `addr`.
pub open spec fn sum_fees(txs: Seq<Transaction>, addr: Seq<char>) -> nat
    decreases txs.len(),
{
    if txs.len() == 0 {
        0
    } else {
        sum_fees(txs.drop_last(), addr) + fee_contribution(txs.last(), addr)
    }
}

/// Whether `a` is the view of one of the strings in `addrs`.
pub open spec fn is_tracked(addrs: Seq<String>, a: Seq<char>) -> bool {
    exists|i: int| 0 <= i < addrs.len() && addrs[i]@ == a
}

/// The fatal error of the aggregation: a running total no longer fits in
/// 256 bits. Unlike a single transaction's fee overflow, which is skipped,
/// this aborts the whole computation.
#[derive(Clone, Copy, Debug, PartialEq, Eq)]
pub enum ComputationError {
    AccumulationOverflow,
}

/// Per-address accumulated fee totals: one entry for each tracked address,
/// tracked addresses and nothing else as keys.
pub struct AddressTotals {
    addrs: Vec<String>,
    totals: Vec<Amount>,
}

impl AddressTotals {
    #[verifier::type_invariant]
    spec fn wf(self) -> bool {
        &&& self.addrs@.len() == self.totals@.len()
        &&& forall|p: int, q: int|
            0 <= p < q < self.addrs@.len() ==> self.addrs@[p]@ != self.addrs@[q]@
    }

    /// How many addresses have an entry.
    pub closed spec fn num_entries(self) -> nat {
        self.addrs@.len()
    }

    /// Whether `a` has an entry.
    pub closed spec fn contains_addr(self, a: Seq<char>) -> bool {
        is_tracked(self.addrs@, a)
    }

    /// The accumulated total of address `a` (meaningful when `a` has an entry).
    pub closed spec fn total_of(self, a: Seq<char>) -> nat {
        let i = choose|i: int| 0 <= i < self.addrs@.len() && self.addrs@[i]@ == a;
        self.totals@[i].value()
    }

    proof fn lemma_total_at_index(self, k: int)
        requires
            self.wf(),
            0 <= k < self.addrs@.len(),
        ensures
            self.contains_addr(self.addrs@[k]@),
            self.total_of(self.addrs@[k]@) == self.totals@[k].value(),
    {
        let a = self.addrs@[k]@;
        assert(0 <= k < self.addrs@.len() && self.addrs@[k]@ == a);
        let i = choose|i: int| 0 <= i < self.addrs@.len() && self.addrs@[i]@ == a;
        assert(0 <= i < self.addrs@.len() && self.addrs@[i]@ == a);
        if i != k {
            assert(false);
        }
    }

    /// How many entries the mapping holds.
    pub fn len(&self) -> (r: usize)
        ensures
            r == self.num_entries(),
    {
        self.addrs.len()
    }

    /// Look up the accumulated total of `addr`: `Some` exactly when `addr`
    /// was tracked.
    pub fn get(&self, addr: &String) -> (r: Option<Amount>)
        ensures
            match r {
                Some(a) => self.contains_addr(addr@) && a.value() == self.total_of(addr@),
                None => !self.contains_addr(addr@),
            },
    {
        proof {
            use_type_invariant(self);
        }
        match find_string(&self.addrs, addr) {
            Some(k) => {
                proof {
                    self.lemma_total_at_index(k as int);
                }
                Some(self.totals[k])
            },
            None => None,
        }
    }
}

/// The first index of `v` holding a string that reads `s`, if any.
fn find_string(v: &Vec<String>, s: &String) -> (r: Option<usize>)
    ensures
        match r {
            Some(k) => k < v@.len() && v@[k as int]@ == s@,
            None => !is_tracked(v@, s@),
        },
{
    let mut k: usize = 0;
    while k < v.len()
        invariant
            k <= v@.len(),
            forall|i: int| 0 <= i < k ==> v@[i]@ != s@,
        decreases v@.len() - k,
    {
        if v[k] == *s {
            return Some(k);
        }
        k += 1;
    }
    None
}

/// `t` holds the fee aggregation of `txs` over the tracked set `addresses`:
/// an entry exactly for each tracked address, each holding the total fee of
/// the transactions that address sent.
pub open spec fn aggregates(t: AddressTotals, addresses: Seq<String>, txs: Seq<Transaction>) -> bool {
    &&& forall|a: Seq<char>|
        #![trigger t.contains_addr(a)]
        #![trigger is_tracked(addresses, a)]
        t.contains_addr(a) <==> is_tracked(addresses, a)
    &&& forall|a: Seq<char>|
        #[trigger] is_tracked(addresses, a) ==> t.total_of(a) == sum_fees(txs, a)
    &&& t.num_entries() == addresses.map_values(|s: String| s@).to_set().len()
}

proof fn lemma_is_tracked_push(s: Seq<String>, x: String, a: Seq<char>)
    ensures
        is_tracked(s.push(x), a) <==> (is_tracked(s, a) || x@ == a),
{
    if is_tracked(s.push(x), a) {
        let i = choose|i: int| 0 <= i < s.push(x).len() && s.push(x)[i]@ == a;
        if i < s.len() {
            assert(s[i]@ == a);
        } else {
            assert(x@ == a);
        }
    }
    if is_tracked(s, a) {
        let i = choose|i: int| 0 <= i < s.len() && s[i]@ == a;
        assert(s.push(x)[i]@ == a);
    }
    if x@ == a {
        assert(s.push(x)[s.len() as int]@ == a);
    }
}

/// Appending one transaction to a prefix adds exactly its contribution.
proof fn lemma_sum_fees_take_step(txs: Seq<Transaction>, j: int, a: Seq<char>)
    requires
        0 <= j < txs.len(),
    ensures
        sum_fees(txs.take(j + 1), a) == sum_fees(txs.take(j), a) + fee_contribution(txs[j], a),
{
    assert(txs.take(j + 1).drop_last() =~= txs.take(j));
    assert(txs.take(j + 1).last() == txs[j]);
}

/// Total fee spent by each tracked address across `txs`, keyed by address.
///
/// Every tracked address gets an entry, initialised to zero; untracked
/// senders are skipped and never appear. A transaction whose fee does not
/// fit in 256 bits is dropped; a running total that no longer fits aborts
/// the whole aggregation with `AccumulationOverflow`, which happens exactly
/// when some tracked address's total fee reaches 2^256.
pub fn compute_gas_used_by_addrs(addresses: Vec<String>, txs: Vec<Transaction>) -> (r: Result<
    AddressTotals,
    ComputationError,
>)
    ensures
        r is Ok <==> (forall|a: Seq<char>|
            #[trigger] is_tracked(addresses@, a) ==> sum_fees(txs@, a) < u256_limit()),
        match r {
            Ok(t) => aggregates(t, addresses@, txs@),
            Err(e) => e == ComputationError::AccumulationOverflow,
        },
{
    let mut keys: Vec<String> = Vec::new();
    let mut totals: Vec<Amount> = Vec::new();

    let mut i: usize = 0;
    while i < addresses.len()
        invariant
            keys@.len() == totals@.len(),
            i <= addresses@.len(),
            forall|p: int, q: int| 0 <= p < q < keys@.len() ==> keys@[p]@ != keys@[q]@,
            forall|a: Seq<char>|
                #![trigger is_tracked(keys@, a)]
                #![trigger is_tracked(addresses@.take(i as int), a)]
                is_tracked(keys@, a) <==> is_tracked(addresses@.take(i as int), a),
            forall|k: int| 0 <= k < totals@.len() ==> #[trigger] totals@[k].value() == 0,
        decreases addresses@.len() - i,
    {
        let ghost prefix = addresses@.take(i as int);
        let ghost old_keys = keys@;
        let addr = &addresses[i];
        match find_string(&keys, addr) {
            Some(_) => {
            },
            None => {
                keys.push(addr.clone());
                totals.push(Amount::zero());
            },
        }
        proof {
            assert(addresses@.take(i as int + 1) =~= prefix.push(addresses@[i as int]));
            assert forall|a: Seq<char>|
                is_tracked(keys@, a) <==> is_tracked(
                    addresses@.take(i as int + 1),
                    a,
                ) by {
                lemma_is_tracked_push(prefix, addresses@[i as int], a);
                if keys@ != old_keys {
                    assert(keys@ =~= old_keys.push(addresses@[i as int]));
                    lemma_is_tracked_push(old_keys, addresses@[i as int], a);
                }
            }
        }
        i += 1;
    }
    proof {
        assert(addresses@.take(addresses@.len() as int) =~= addresses@);
    }

    let mut j: usize = 0;
    while j < txs.len()
        invariant
            keys@.len() == totals@.len(),
            j <= txs@.len(),
            forall|p: int, q: int| 0 <= p < q < keys@.len() ==> keys@[p]@ != keys@[q]@,
            forall|a: Seq<char>|
                #![trigger is_tracked(keys@, a)]
                #![trigger is_tracked(addresses@, a)]
                is_tracked(keys@, a) <==> is_tracked(addresses@, a),
            forall|k: int|
                0 <= k < keys@.len() ==> #[trigger] totals@[k].value() == sum_fees(
                    txs@.take(j as int),
                    keys@[k]@,
                ),
        decreases txs@.len() - j,
    {
        let tx = &txs[j];
        let p = Amount::parse_factor(&tx.gasPrice);
        let u = Amount::parse_factor(&tx.gasUsed);
        let ghost fee_spec = tx_fee(txs@[j as int]);
        match u256_checked_mul(&p, &u) {
            Some(fee) => {
                proof {
                    assert(fee.value() == fee_spec);
                }
                match find_string(&keys, &tx.from) {
                    Some(k) => {
                        match u256_checked_add(&totals[k], &fee) {
                            Some(nt) => {
                                totals.set(k, nt);
                                proof {
                                    assert forall|m: int| 0 <= m < keys@.len() implies totals@[m].value()
                                        == sum_fees(txs@.take(j as int + 1), keys@[m]@) by {
                                        lemma_sum_fees_take_step(txs@, j as int, keys@[m]@);
                                    }
                                }
                            },
                            None => {
                                proof {
                                    let from = txs@[j as int].from@;
                                    lemma_sum_fees_take_step(txs@, j as int, from);
                                    lemma_sum_fees_prefix_bound(txs@, j as int + 1, from);
                                    assert(is_tracked(addresses@, from));
                                    assert(sum_fees(txs@, from) >= u256_limit());
                                    assert(!(forall|a: Seq<char>|
                                        #[trigger] is_tracked(addresses@, a) ==> sum_fees(txs@, a)
                                            < u256_limit()));
                                }
                                return Err(ComputationError::AccumulationOverflow);
                            },
                        }
                    },
                    None => {
                        proof {
                            assert forall|m: int| 0 <= m < keys@.len() implies totals@[m].value()
                                == sum_fees(txs@.take(j as int + 1), keys@[m]@) by {
                                lemma_sum_fees_take_step(txs@, j as int, keys@[m]@);
                                assert(keys@[m]@ != txs@[j as int].from@);
                            }
                        }
                    },
                }
            },
            None => {
                proof {
                    assert(fee_spec == 0);
                    assert forall|m: int| 0 <= m < keys@.len() implies totals@[m].value()
                        == sum_fees(txs@.take(j as int + 1), keys@[m]@) by {
                        lemma_sum_fees_take_step(txs@, j as int, keys@[m]@);
                    }
                }
            },
        }
        j += 1;
    }
    proof {
        assert(txs@.take(txs@.len() as int) =~= txs@);
    }

    let result = AddressTotals { addrs: keys, totals };
    proof {
        assert forall|a: Seq<char>| #[trigger]
            is_tracked(addresses@, a) implies result.total_of(a) == sum_fees(txs@, a) && sum_fees(
            txs@,
            a,
        ) < u256_limit() by {
            let k = choose|k: int| 0 <= k < result.addrs@.len() && result.addrs@[k]@ == a;
            assert(0 <= k < result.addrs@.len() && result.addrs@[k]@ == a);
            result.lemma_total_at_index(k);
            result.totals@[k].lemma_value_below_limit();
        }
        lemma_one_entry_per_tracked_address(result, addresses@);
    }
    Ok(result)
}

/// A prefix never sums to more than the whole sequence.
proof fn lemma_sum_fees_prefix_bound(txs: Seq<Transaction>, j: int, a: Seq<char>)
    requires
        0 <= j <= txs.len(),
    ensures
        sum_fees(txs.take(j), a) <= sum_fees(txs, a),
    decreases txs.len() - j,
{
    if j == txs.len() {
        assert(txs.take(j) =~= txs);
    } else {
        lemma_sum_fees_take_step(txs, j, a);
        lemma_sum_fees_prefix_bound(txs, j + 1, a);
    }
}

/// Removing one transaction removes exactly its contribution.
proof fn lemma_sum_fees_remove(txs: Seq<Transaction>, j: int, a: Seq<char>)
    requires
        0 <= j < txs.len(),
    ensures
        sum_fees(txs, a) == sum_fees(txs.remove(j), a) + fee_contribution(txs[j], a),
    decreases txs.len(),
{
    if j == txs.len() - 1 {
        assert(txs.remove(j) =~= txs.drop_last());
    } else {
        assert(txs.remove(j).drop_last() =~= txs.drop_last().remove(j));
        assert(txs.remove(j).last() == txs.last());
        lemma_sum_fees_remove(txs.drop_last(), j, a);
        assert(txs.drop_last()[j] == txs[j]);
    }
}

/// Reordering the transactions does not change any address's total: the
/// aggregation is a commutative reduction.
pub proof fn lemma_sum_fees_permutation(t1: Seq<Transaction>, t2: Seq<Transaction>, a: Seq<char>)
    requires
        t1.to_multiset() == t2.to_multiset(),
    ensures
        sum_fees(t1, a) == sum_fees(t2, a),
    decreases t1.len(),
{
    broadcast use vstd::seq_lib::group_to_multiset_ensures;

    if t1.len() == 0 {
        assert(t1.to_multiset().len() == 0);
        assert(t2.len() == 0);
    } else {
        let x = t1.last();
        assert(t1 =~= t1.drop_last().push(x));
        assert(t1.to_multiset() =~= t1.drop_last().to_multiset().insert(x));
        assert(t2.to_multiset().count(x) > 0);
        assert(t2.contains(x));
        let j = choose|j: int| 0 <= j < t2.len() && t2[j] == x;
        assert(t2.remove(j).to_multiset() =~= t2.to_multiset().remove(x));
        assert(t2.remove(j).to_multiset() =~= t1.drop_last().to_multiset());
        lemma_sum_fees_permutation(t1.drop_last(), t2.remove(j), a);
        lemma_sum_fees_remove(t2, j, a);
    }
}

/// An address that sent no transaction in `txs` has a total of exactly zero.
pub proof fn lemma_sum_fees_no_matching(txs: Seq<Transaction>, a: Seq<char>)
    requires
        forall|i: int| 0 <= i < txs.len() ==> (#[trigger] txs[i].from)@ != a,
    ensures
        sum_fees(txs, a) == 0,
    decreases txs.len(),
{
    if txs.len() > 0 {
        assert(txs.last() == txs[txs.len() - 1]);
        assert forall|i: int| 0 <= i < txs.drop_last().len() implies (#[trigger] txs.drop_last()[i].from)@
            != a by {
            assert(txs.drop_last()[i] == txs[i]);
        }
        lemma_sum_fees_no_matching(txs.drop_last(), a);
    }
}

/// A transaction with a malformed gas price or gas quantity contributes
/// zero to every total.
pub proof fn lemma_malformed_field_fee_zero(t: Transaction)
    requires
        !is_dec_digits(t.gasPrice@) || !is_dec_digits(t.gasUsed@),
    ensures
        tx_fee(t) == 0,
{
}

/// The aggregation is a pure function of its inputs: any two results for the
/// same tracked set and the same transactions agree on every key and on
/// every total.
pub proof fn lemma_aggregation_determined(
    addresses: Seq<String>,
    txs: Seq<Transaction>,
    t1: AddressTotals,
    t2: AddressTotals,
)
    requires
        aggregates(t1, addresses, txs),
        aggregates(t2, addresses, txs),
    ensures
        forall|a: Seq<char>| #[trigger] t1.contains_addr(a) == t2.contains_addr(a),
        forall|a: Seq<char>| #[trigger]
            is_tracked(addresses, a) ==> t1.total_of(a) == t2.total_of(a),
{
}

/// The mapping holds exactly one entry per distinct tracked address.
proof fn lemma_one_entry_per_tracked_address(t: AddressTotals, addresses: Seq<String>)
    requires
        t.wf(),
        forall|a: Seq<char>|
            #![trigger t.contains_addr(a)]
            #![trigger is_tracked(addresses, a)]
            t.contains_addr(a) <==> is_tracked(addresses, a),
    ensures
        t.num_entries() == addresses.map_values(|s: String| s@).to_set().len(),
{
    let keys = t.addrs@.map_values(|s: String| s@);
    assert(keys.no_duplicates());
    keys.unique_seq_to_set();
    let tracked_views = addresses.map_values(|s: String| s@);
    assert forall|a: Seq<char>| keys.to_set().contains(a) implies tracked_views.to_set().contains(
        a,
    ) by {
        let i = choose|i: int| 0 <= i < keys.len() && keys[i] == a;
        assert(t.addrs@[i]@ == a);
        assert(t.contains_addr(a));
        assert(is_tracked(addresses, a));
        let j = choose|j: int| 0 <= j < addresses.len() && addresses[j]@ == a;
        assert(tracked_views[j] == a);
        assert(tracked_views.contains(a));
    }
    assert forall|a: Seq<char>| tracked_views.to_set().contains(a) implies keys.to_set().contains(
        a,
    ) by {
        let j = choose|j: int| 0 <= j < tracked_views.len() && tracked_views[j] == a;
        assert(addresses[j]@ == a);
        assert(is_tracked(addresses, a));
        assert(t.contains_addr(a));
        let i = choose|i: int| 0 <= i < t.addrs@.len() && t.addrs@[i]@ == a;
        assert(keys[i] == a);
        assert(keys.contains(a));
    }
    assert(keys.to_set() =~= tracked_views.to_set());
}

} // verus!
