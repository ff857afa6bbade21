//! The sparse quantity ledger and its algebra.

use vstd::prelude::*;

verus! {

use crate::error::ArithmeticOverflow;

/// A sparse ledger mapping string keys to signed 64-bit net quantities.
#[derive(Debug, Clone)]
pub struct Balance {
    entries: Vec<(String, i64)>,
}

impl Balance {
    /// An empty ledger: every key has quantity zero.
    pub fn new() -> (b: Balance)
        ensures
            b.wf(),
            b@ == Map::<Seq<char>, int>::empty(),
    {
        Balance { entries: Vec::new() }
    }

    /// The stored entries have pairwise distinct keys and no zero amounts.
    pub closed spec fn wf(&self) -> bool {
        &&& (forall|i: int, j: int|
            0 <= i < j < self.entries@.len() ==> self.entries@[i].0@ != self.entries@[j].0@)
        &&& (forall|i: int| 0 <= i < self.entries@.len() ==> self.entries@[i].1 != 0)
    }
}

impl Balance {
    /// The net quantity this ledger assigns to `key`; zero when absent.
    pub fn get(&self, key: &String) -> (amount: i64)
        requires
            self.wf(),
        ensures
            amount as int == amount_of(self@, key@),
    {
        let n = self.entries.len();
        let mut i: usize = 0;
        while i < n
            invariant
                n == self.entries@.len(),
                self.wf(),
                forall|j: int| 0 <= j < i ==> self.entries@[j].0@ != key@,
            decreases n - i,
        {
            if self.entries[i].0 == *key {
                proof {
                    lemma_entries_map_props(self.entries@);
                }
                return self.entries[i].1;
            }
            i += 1;
        }
        proof {
            lemma_entries_map_props(self.entries@);
            if self@.dom().contains(key@) {
                let j = choose|j: int| 0 <= j < self.entries@.len() && self.entries@[j].0@ == key@;
            }
        }
        0
    }

    /// The sum of two ledgers: every key present in either operand flows the
    /// sum of its two quantities. Operands are untouched; the sum is a new
    /// value. Fails exactly when some key's summed quantity does not fit in a
    /// signed 64-bit amount.
    pub fn combine(&self, other: &Balance) -> (result: Result<Balance, ArithmeticOverflow>)
        requires
            self.wf(),
            other.wf(),
        ensures
            match result {
                Ok(b) => {
                    &&& b.wf()
                    &&& b@ == combine_map(self@, other@)
                    &&& forall|k: Seq<char>|
                        fits_i64(amount_of(self@, k) + amount_of(other@, k))
                },
                Err(_) => exists|k: Seq<char>|
                    !fits_i64(amount_of(self@, k) + amount_of(other@, k)),
            },
    {
        let ghost m1 = self@;
        let ghost m2 = other@;
        let mut out: Vec<(String, i64)> = Vec::new();
        let n = self.entries.len();
        let mut i: usize = 0;
        while i < n
            invariant
                n == self.entries@.len(),
                i <= n,
                self.wf(),
                other.wf(),
                m1 == self@,
                m2 == other@,
                distinct_keys(out@),
                nonzero_amounts(out@),
                forall|idx: int|
                    0 <= idx < out@.len() ==> key_in_prefix(self.entries@, i as int, out@[idx].0@),
                forall|k: Seq<char>| #[trigger] amount_of(entries_map(out@), k) == (
                if key_in_prefix(self.entries@, i as int, k) {
                    amount_of(m1, k) + amount_of(m2, k)
                } else {
                    0
                }),
                forall|j: int|
                    0 <= j < i ==> fits_i64(
                        amount_of(m1, #[trigger] self.entries@[j].0@) + amount_of(
                            m2,
                            self.entries@[j].0@,
                        ),
                    ),
            decreases n - i,
        {
            let self_amount = self.entries[i].1;
            let other_amount = other.get(&self.entries[i].0);
            proof {
                lemma_entries_map_props(self.entries@);
            }
            let ghost ki = self.entries@[i as int].0@;
            assert(self_amount as int == amount_of(m1, ki));
            match self_amount.checked_add(other_amount) {
                None => {
                    assert(!fits_i64(amount_of(m1, ki) + amount_of(m2, ki)));
                    return Err(ArithmeticOverflow);
                },
                Some(sum) => {
                    let ghost old_out = out@;
                    proof {
                        if key_in_prefix(self.entries@, i as int, ki) {
                            let j = choose|j: int|
                                0 <= j < i && self.entries@[j].0@ == ki;
                            assert(false);
                        }
                    }
                    if sum != 0 {
                        proof {
                            assert forall|idx: int|
                                0 <= idx < out@.len() implies out@[idx].0@ != ki by {
                                let j = choose|j: int|
                                    0 <= j < i && self.entries@[j].0@ == out@[idx].0@;
                            }
                        }
                        out.push((self.entries[i].0.clone(), sum));
                        proof {
                            assert(out@.drop_last() =~= old_out);
                            assert(entries_map(out@) == entries_map(old_out).insert(
                                ki,
                                sum as int,
                            ));
                            assert forall|idx: int|
                                0 <= idx < out@.len() implies key_in_prefix(
                                self.entries@,
                                i + 1,
                                out@[idx].0@,
                            ) by {
                                if idx < old_out.len() {
                                    let j = choose|j: int|
                                        0 <= j < i && self.entries@[j].0@ == old_out[idx].0@;
                                    assert(0 <= j < i + 1 && self.entries@[j].0@ == out@[idx].0@);
                                } else {
                                    assert(self.entries@[i as int].0@ == out@[idx].0@);
                                }
                            }
                        }
                    }
                    proof {
                        assert forall|k: Seq<char>| #[trigger] amount_of(entries_map(out@), k) == (
                        if key_in_prefix(self.entries@, i + 1, k) {
                            amount_of(m1, k) + amount_of(m2, k)
                        } else {
                            0
                        }) by {
                            assert(amount_of(entries_map(old_out), k) == (
                            if key_in_prefix(self.entries@, i as int, k) {
                                amount_of(m1, k) + amount_of(m2, k)
                            } else {
                                0
                            }));
                            if key_in_prefix(self.entries@, i + 1, k) {
                                let j = choose|j: int|
                                    0 <= j < i + 1 && self.entries@[j].0@ == k;
                                if j < i {
                                    assert(key_in_prefix(self.entries@, i as int, k));
                                    assert(k != ki);
                                } else {
                                    assert(k == ki);
                                }
                            } else {
                                assert(!key_in_prefix(self.entries@, i as int, k));
                                assert(k != ki);
                            }
                        }
                    }
                },
            }
            i += 1;
        }
        // Keys that appear only in the other operand.
        let m = other.entries.len();
        let mut j: usize = 0;
        proof {
            lemma_entries_map_props(self.entries@);
            assert forall|k: Seq<char>| #[trigger] amount_of(entries_map(out@), k) == (
            if m1.dom().contains(k) || key_in_prefix(other.entries@, 0, k) {
                amount_of(m1, k) + amount_of(m2, k)
            } else {
                0
            }) by {
                if m1.dom().contains(k) {
                    assert(key_in_prefix(self.entries@, n as int, k));
                } else if key_in_prefix(self.entries@, n as int, k) {
                    let jj = choose|jj: int|
                        0 <= jj < n && self.entries@[jj].0@ == k;
                    assert(m1.dom().contains(k));
                }
            }
        }
        while j < m
            invariant
                m == other.entries@.len(),
                j <= m,
                self.wf(),
                other.wf(),
                m1 == self@,
                m2 == other@,
                distinct_keys(out@),
                nonzero_amounts(out@),
                forall|idx: int|
                    0 <= idx < out@.len() ==> m1.dom().contains(#[trigger] out@[idx].0@)
                        || key_in_prefix(other.entries@, j as int, out@[idx].0@),
                forall|k: Seq<char>| #[trigger] amount_of(entries_map(out@), k) == (
                if m1.dom().contains(k) || key_in_prefix(other.entries@, j as int, k) {
                    amount_of(m1, k) + amount_of(m2, k)
                } else {
                    0
                }),
                forall|k: Seq<char>|
                    m1.dom().contains(k) ==> fits_i64(
                        amount_of(m1, k) + amount_of(m2, k),
                    ),
            decreases m - j,
        {
            let other_amount = other.entries[j].1;
            let self_amount = self.get(&other.entries[j].0);
            proof {
                lemma_entries_map_props(other.entries@);
                lemma_entries_map_props(self.entries@);
            }
            let ghost kj = other.entries@[j as int].0@;
            let ghost pre_out = out@;
            assert(other_amount as int == amount_of(m2, kj));
            if self_amount == 0 {
                proof {
                    if m1.dom().contains(kj) {
                        let jj = choose|jj: int|
                            0 <= jj < self.entries@.len() && self.entries@[jj].0@ == kj;
                    }
                    assert(!m1.dom().contains(kj));
                    assert(!key_in_prefix(other.entries@, j as int, kj));
                    assert(amount_of(entries_map(out@), kj) == 0);
                    assert forall|idx: int|
                        0 <= idx < out@.len() implies out@[idx].0@ != kj by {
                        if !m1.dom().contains(out@[idx].0@) {
                            let jj = choose|jj: int|
                                0 <= jj < j && other.entries@[jj].0@ == out@[idx].0@;
                        }
                    }
                }
                out.push((other.entries[j].0.clone(), other_amount));
                proof {
                    assert(out@.drop_last() =~= pre_out);
                    assert(entries_map(out@) == entries_map(pre_out).insert(
                        kj,
                        other_amount as int,
                    ));
                }
            }
            proof {
                assert forall|k: Seq<char>| #[trigger] amount_of(entries_map(out@), k) == (
                if m1.dom().contains(k) || key_in_prefix(other.entries@, j + 1, k) {
                    amount_of(m1, k) + amount_of(m2, k)
                } else {
                    0
                }) by {
                    assert(amount_of(entries_map(pre_out), k) == (
                    if m1.dom().contains(k) || key_in_prefix(other.entries@, j as int, k) {
                        amount_of(m1, k) + amount_of(m2, k)
                    } else {
                        0
                    }));
                    if key_in_prefix(other.entries@, j + 1, k) {
                        let jj = choose|jj: int|
                            0 <= jj < j + 1 && other.entries@[jj].0@ == k;
                        if jj < j {
                            assert(key_in_prefix(other.entries@, j as int, k));
                        } else {
                            assert(k == kj);
                        }
                    } else {
                        assert(!key_in_prefix(other.entries@, j as int, k));
                        assert(k != kj);
                    }
                }
            }
            j += 1;
        }
        proof {
            lemma_entries_map_props(other.entries@);
            assert forall|k: Seq<char>| #[trigger] amount_of(entries_map(out@), k) == amount_of(
                combine_map(m1, m2),
                k,
            ) by {
                if key_in_prefix(other.entries@, m as int, k) {
                    let jj = choose|jj: int|
                        0 <= jj < m && other.entries@[jj].0@ == k;
                    assert(m2.dom().contains(k));
                } else if m2.dom().contains(k) {
                    assert(key_in_prefix(other.entries@, m as int, k));
                }
            }
            assert forall|k: Seq<char>|
                fits_i64(amount_of(m1, k) + amount_of(m2, k)) by {
                if !m1.dom().contains(k) {
                    lemma_entries_map_range(other.entries@, k);
                }
            }
            lemma_normalized(out@);
            assert forall|k: Seq<char>|
                combine_map(m1, m2).dom().contains(k) implies combine_map(m1, m2)[k] != 0 by {}
            lemma_amounts_determine(entries_map(out@), combine_map(m1, m2));
        }
        Ok(Balance { entries: out })
    }

    /// A ledger multiplied by an integer factor: every key flows its quantity
    /// times the factor. The operand is untouched; the product is a new
    /// value. Fails exactly when some key's scaled quantity does not fit in a
    /// signed 64-bit amount.
    pub fn scale(&self, factor: i64) -> (result: Result<Balance, ArithmeticOverflow>)
        requires
            self.wf(),
        ensures
            match result {
                Ok(b) => {
                    &&& b.wf()
                    &&& b@ == scale_map(self@, factor as int)
                    &&& forall|k: Seq<char>| fits_i64(amount_of(self@, k) * (factor as int))
                },
                Err(_) => exists|k: Seq<char>|
                    !fits_i64(amount_of(self@, k) * (factor as int)),
            },
    {
        let ghost m1 = self@;
        let mut out: Vec<(String, i64)> = Vec::new();
        let n = self.entries.len();
        let mut i: usize = 0;
        while i < n
            invariant
                n == self.entries@.len(),
                i <= n,
                self.wf(),
                m1 == self@,
                distinct_keys(out@),
                nonzero_amounts(out@),
                forall|idx: int|
                    0 <= idx < out@.len() ==> key_in_prefix(self.entries@, i as int, out@[idx].0@),
                forall|k: Seq<char>| #[trigger] amount_of(entries_map(out@), k) == (
                if key_in_prefix(self.entries@, i as int, k) {
                    amount_of(m1, k) * (factor as int)
                } else {
                    0
                }),
                forall|j: int|
                    0 <= j < i ==> fits_i64(
                        amount_of(m1, #[trigger] self.entries@[j].0@) * (factor as int),
                    ),
            decreases n - i,
        {
            let amount = self.entries[i].1;
            proof {
                lemma_entries_map_props(self.entries@);
            }
            let ghost ki = self.entries@[i as int].0@;
            assert(amount as int == amount_of(m1, ki));
            match amount.checked_mul(factor) {
                None => {
                    assert(!fits_i64(amount_of(m1, ki) * (factor as int)));
                    return Err(ArithmeticOverflow);
                },
                Some(product) => {
                    let ghost old_out = out@;
                    proof {
                        if key_in_prefix(self.entries@, i as int, ki) {
                            let j = choose|j: int|
                                0 <= j < i && self.entries@[j].0@ == ki;
                            assert(false);
                        }
                    }
                    if product != 0 {
                        proof {
                            assert forall|idx: int|
                                0 <= idx < out@.len() implies out@[idx].0@ != ki by {
                                let j = choose|j: int|
                                    0 <= j < i && self.entries@[j].0@ == out@[idx].0@;
                            }
                        }
                        out.push((self.entries[i].0.clone(), product));
                        proof {
                            assert(out@.drop_last() =~= old_out);
                            assert(entries_map(out@) == entries_map(old_out).insert(
                                ki,
                                product as int,
                            ));
                            assert forall|idx: int|
                                0 <= idx < out@.len() implies key_in_prefix(
                                self.entries@,
                                i + 1,
                                out@[idx].0@,
                            ) by {
                                if idx < old_out.len() {
                                    let j = choose|j: int|
                                        0 <= j < i && self.entries@[j].0@ == old_out[idx].0@;
                                    assert(0 <= j < i + 1 && self.entries@[j].0@ == out@[idx].0@);
                                } else {
                                    assert(self.entries@[i as int].0@ == out@[idx].0@);
                                }
                            }
                        }
                    }
                    proof {
                        assert forall|k: Seq<char>| #[trigger] amount_of(entries_map(out@), k) == (
                        if key_in_prefix(self.entries@, i + 1, k) {
                            amount_of(m1, k) * (factor as int)
                        } else {
                            0
                        }) by {
                            assert(amount_of(entries_map(old_out), k) == (
                            if key_in_prefix(self.entries@, i as int, k) {
                                amount_of(m1, k) * (factor as int)
                            } else {
                                0
                            }));
                            if key_in_prefix(self.entries@, i + 1, k) {
                                let j = choose|j: int|
                                    0 <= j < i + 1 && self.entries@[j].0@ == k;
                                if j < i {
                                    assert(key_in_prefix(self.entries@, i as int, k));
                                    assert(k != ki);
                                } else {
                                    assert(k == ki);
                                }
                            } else {
                                assert(!key_in_prefix(self.entries@, i as int, k));
                                assert(k != ki);
                            }
                        }
                    }
                },
            }
            i += 1;
        }
        proof {
            lemma_entries_map_props(self.entries@);
            assert forall|k: Seq<char>| #[trigger] amount_of(entries_map(out@), k) == amount_of(
                scale_map(m1, factor as int),
                k,
            ) by {
                if key_in_prefix(self.entries@, n as int, k) {
                    let jj = choose|jj: int| 0 <= jj < n && self.entries@[jj].0@ == k;
                    assert(m1.dom().contains(k));
                } else {
                    if m1.dom().contains(k) {
                        assert(key_in_prefix(self.entries@, n as int, k));
                    }
                    assert(amount_of(m1, k) == 0);
                }
            }
            assert forall|k: Seq<char>| fits_i64(amount_of(m1, k) * (factor as int)) by {
                if m1.dom().contains(k) {
                    assert(key_in_prefix(self.entries@, n as int, k));
                    let jj = choose|jj: int| 0 <= jj < n && self.entries@[jj].0@ == k;
                } else {
                    assert(amount_of(m1, k) == 0);
                }
            }
            lemma_normalized(out@);
            lemma_amounts_determine(entries_map(out@), scale_map(m1, factor as int));
        }
        Ok(Balance { entries: out })
    }

    /// Whether two ledgers assign the same net quantity to every key. An
    /// explicit zero entry counts the same as an absent one.
    pub fn equals(&self, other: &Balance) -> (r: bool)
        requires
            self.wf(),
            other.wf(),
        ensures
            r == (self@ == other@),
    {
        let ghost m1 = self@;
        let ghost m2 = other@;
        let n = self.entries.len();
        let mut i: usize = 0;
        while i < n
            invariant
                n == self.entries@.len(),
                i <= n,
                self.wf(),
                other.wf(),
                m1 == self@,
                m2 == other@,
                forall|j: int|
                    0 <= j < i ==> amount_of(m2, #[trigger] self.entries@[j].0@)
                        == self.entries@[j].1 as int,
            decreases n - i,
        {
            let other_amount = other.get(&self.entries[i].0);
            proof {
                lemma_entries_map_props(self.entries@);
            }
            if other_amount != self.entries[i].1 {
                proof {
                    let ghost ki = self.entries@[i as int].0@;
                    assert(amount_of(m1, ki) != amount_of(m2, ki));
                }
                return false;
            }
            i += 1;
        }
        let m = other.entries.len();
        let mut j: usize = 0;
        while j < m
            invariant
                m == other.entries@.len(),
                j <= m,
                self.wf(),
                other.wf(),
                m1 == self@,
                m2 == other@,
                forall|jj: int|
                    0 <= jj < self.entries@.len() ==> amount_of(
                        m2,
                        #[trigger] self.entries@[jj].0@,
                    ) == self.entries@[jj].1 as int,
                forall|jj: int|
                    0 <= jj < j ==> amount_of(m1, #[trigger] other.entries@[jj].0@)
                        == other.entries@[jj].1 as int,
            decreases m - j,
        {
            let self_amount = self.get(&other.entries[j].0);
            proof {
                lemma_entries_map_props(other.entries@);
            }
            if self_amount != other.entries[j].1 {
                proof {
                    let ghost kj = other.entries@[j as int].0@;
                    assert(amount_of(m1, kj) != amount_of(m2, kj));
                }
                return false;
            }
            j += 1;
        }
        proof {
            lemma_entries_map_props(self.entries@);
            lemma_entries_map_props(other.entries@);
            lemma_normalized(self.entries@);
            lemma_normalized(other.entries@);
            assert forall|k: Seq<char>| #[trigger] amount_of(m1, k) == amount_of(m2, k) by {
                if m1.dom().contains(k) {
                    let jj = choose|jj: int|
                        0 <= jj < self.entries@.len() && self.entries@[jj].0@ == k;
                } else if m2.dom().contains(k) {
                    let jj = choose|jj: int|
                        0 <= jj < other.entries@.len() && other.entries@[jj].0@ == k;
                }
            }
            lemma_amounts_determine(m1, m2);
        }
        true
    }

    /// The stored entries: pairwise distinct keys, no zero amounts, denoting
    /// exactly this ledger's mapping. The order is an implementation detail.
    pub fn entries(&self) -> (es: &Vec<(String, i64)>)
        requires
            self.wf(),
        ensures
            distinct_keys(es@),
            nonzero_amounts(es@),
            entries_map(es@) == self@,
    {
        &self.entries
    }

    /// Builds a ledger from a table of per-key amounts. Explicit zero amounts
    /// denote "no flow" and are normalized away.
    pub fn from_entries(entries: Vec<(String, i64)>) -> (b: Balance)
        requires
            distinct_keys(entries@),
        ensures
            b.wf(),
            b@ == entries_map(entries@),
    {
        let n = entries.len();
        let mut kept: Vec<(String, i64)> = Vec::new();
        let mut i: usize = 0;
        while i < n
            invariant
                n == entries@.len(),
                i <= n,
                distinct_keys(entries@),
                distinct_keys(kept@),
                nonzero_amounts(kept@),
                entries_map(kept@) == entries_map(entries@.take(i as int)),
                forall|idx: int|
                    0 <= idx < kept@.len() ==> key_in_prefix(entries@, i as int, kept@[idx].0@),
            decreases n - i,
        {
            let amount = entries[i].1;
            proof {
                assert(entries@.take(i + 1).drop_last() =~= entries@.take(i as int));
                assert(entries@.take(i + 1).last() == entries@[i as int]);
            }
            if amount != 0 {
                let ghost old_kept = kept@;
                proof {
                    assert forall|idx: int| 0 <= idx < kept@.len() implies kept@[idx].0@
                        != entries@[i as int].0@ by {
                        let j = choose|j: int|
                            0 <= j < i && entries@[j].0@ == kept@[idx].0@;
                    }
                }
                kept.push((entries[i].0.clone(), amount));
                proof {
                    assert(kept@.drop_last() =~= old_kept);
                    assert forall|idx: int|
                        0 <= idx < kept@.len() implies key_in_prefix(
                        entries@,
                        i + 1,
                        kept@[idx].0@,
                    ) by {
                        if idx < old_kept.len() {
                            let j = choose|j: int|
                                0 <= j < i && entries@[j].0@ == old_kept[idx].0@;
                            assert(0 <= j < i + 1 && entries@[j].0@ == kept@[idx].0@);
                        } else {
                            assert(entries@[i as int].0@ == kept@[idx].0@);
                        }
                    }
                }
            }
            i += 1;
        }
        proof {
            assert(entries@.take(n as int) =~= entries@);
        }
        Balance { entries: kept }
    }
}

impl View for Balance {
    type V = Map<Seq<char>, int>;

    closed spec fn view(&self) -> Map<Seq<char>, int> {
        entries_map(self.entries@)
    }
}

/// The mapping denoted by a sequence of entries: zero amounts are dropped,
/// and a later entry for a key overrides an earlier one.
pub open spec fn entries_map(s: Seq<(String, i64)>) -> Map<Seq<char>, int>
    decreases s.len(),
{
    if s.len() == 0 {
        Map::empty()
    } else {
        let rest = entries_map(s.drop_last());
        if s.last().1 == 0 {
            rest
        } else {
            rest.insert(s.last().0@, s.last().1 as int)
        }
    }
}

/// The net quantity a ledger assigns to a key: an absent key flows nothing.
pub open spec fn amount_of(m: Map<Seq<char>, int>, k: Seq<char>) -> int {
    if m.dom().contains(k) {
        m[k]
    } else {
        0
    }
}

/// A ledger in normal form records no explicit zero quantities.
pub open spec fn normalized(m: Map<Seq<char>, int>) -> bool {
    forall|k: Seq<char>| m.dom().contains(k) ==> m[k] != 0
}

/// Every quantity the ledger records fits in a signed 64-bit amount.
pub open spec fn amounts_fit(m: Map<Seq<char>, int>) -> bool {
    forall|k: Seq<char>| m.dom().contains(k) ==> fits_i64(m[k])
}

/// The sum of two ledgers: each key flows the sum of its two quantities,
/// with keys whose sum is zero left absent.
pub open spec fn combine_map(a: Map<Seq<char>, int>, b: Map<Seq<char>, int>) -> Map<
    Seq<char>,
    int,
> {
    Map::new(
        |k: Seq<char>| amount_of(a, k) + amount_of(b, k) != 0,
        |k: Seq<char>| amount_of(a, k) + amount_of(b, k),
    )
}

/// A ledger multiplied by an integer factor: each key flows its quantity
/// times the factor, with keys whose product is zero left absent.
pub open spec fn scale_map(m: Map<Seq<char>, int>, factor: int) -> Map<Seq<char>, int> {
    Map::new(
        |k: Seq<char>| m.dom().contains(k) && m[k] * factor != 0,
        |k: Seq<char>| m[k] * factor,
    )
}

/// Whether a mathematical quantity fits in a signed 64-bit amount.
pub open spec fn fits_i64(x: int) -> bool {
    i64::MIN <= x <= i64::MAX
}

/// No two entries of the sequence share a key.
pub open spec fn distinct_keys(s: Seq<(String, i64)>) -> bool {
    forall|i: int, j: int| 0 <= i < j < s.len() ==> s[i].0@ != s[j].0@
}

/// No entry of the sequence holds a zero amount.
pub open spec fn nonzero_amounts(s: Seq<(String, i64)>) -> bool {
    forall|i: int| 0 <= i < s.len() ==> s[i].1 != 0
}

/// Some entry among the first `n` carries the key `k`.
pub open spec fn key_in_prefix(s: Seq<(String, i64)>, n: int, k: Seq<char>) -> bool {
    exists|j: int| 0 <= j < n && s[j].0@ == k
}

proof fn lemma_entries_map_props(s: Seq<(String, i64)>)
    requires
        distinct_keys(s),
        nonzero_amounts(s),
    ensures
        forall|i: int|
            0 <= i < s.len() ==> #[trigger] entries_map(s).dom().contains(s[i].0@)
                && entries_map(s)[s[i].0@] == s[i].1 as int,
        forall|k: Seq<char>|
            #[trigger] entries_map(s).dom().contains(k) ==> key_in_prefix(s, s.len() as int, k),
    decreases s.len(),
{
    if s.len() > 0 {
        let head = s.drop_last();
        lemma_entries_map_props(head);
        assert(head.len() == s.len() - 1);
        assert(s[s.len() - 1].1 != 0);
        assert(entries_map(s) == entries_map(head).insert(s.last().0@, s.last().1 as int));
        assert forall|i: int|
            0 <= i < s.len() implies #[trigger] entries_map(s).dom().contains(s[i].0@)
            && entries_map(s)[s[i].0@] == s[i].1 as int by {
            if i < s.len() - 1 {
                assert(head[i] == s[i]);
                assert(entries_map(head).dom().contains(head[i].0@) && entries_map(head)[head[i].0@]
                    == head[i].1 as int);
                assert(s[i].0@ != s.last().0@);
            }
        }
        assert forall|k: Seq<char>|
            #[trigger] entries_map(s).dom().contains(k) implies key_in_prefix(
            s,
            s.len() as int,
            k,
        ) by {
            if k == s.last().0@ {
                assert(s[s.len() - 1].0@ == k);
            } else {
                assert(entries_map(head).dom().contains(k));
                let j = choose|j: int| 0 <= j < head.len() && head[j].0@ == k;
                assert(s[j].0@ == k);
            }
        }
    }
}

impl Default for Balance {
    /// The default ledger is the empty one.
    fn default() -> (b: Balance)
        ensures
            b.wf(),
            b@ == Map::<Seq<char>, int>::empty(),
    {
        Balance::new()
    }
}

/// The summed ledger assigns each key the sum of the operands' quantities.
pub proof fn lemma_combine_amount(a: Map<Seq<char>, int>, b: Map<Seq<char>, int>, k: Seq<char>)
    ensures
        amount_of(combine_map(a, b), k) == amount_of(a, k) + amount_of(b, k),
{
}

/// The scaled ledger assigns each key the operand's quantity times the factor.
pub proof fn lemma_scale_amount(m: Map<Seq<char>, int>, factor: int, k: Seq<char>)
    ensures
        amount_of(scale_map(m, factor), k) == amount_of(m, k) * factor,
{
    if !(m.dom().contains(k) && m[k] * factor != 0) {
        vstd::arithmetic::mul::lemma_mul_basics(factor);
    }
}

/// A combined or scaled ledger never records an explicit zero.
proof fn lemma_algebra_normalized(a: Map<Seq<char>, int>, b: Map<Seq<char>, int>, factor: int)
    ensures
        normalized(combine_map(a, b)),
        normalized(scale_map(a, factor)),
{
}

/// Law: combining ledgers is associative.
pub proof fn lemma_combine_associative(
    a: Map<Seq<char>, int>,
    b: Map<Seq<char>, int>,
    c: Map<Seq<char>, int>,
)
    ensures
        combine_map(combine_map(a, b), c) == combine_map(a, combine_map(b, c)),
{
    assert forall|k: Seq<char>| #[trigger] amount_of(combine_map(combine_map(a, b), c), k)
        == amount_of(combine_map(a, combine_map(b, c)), k) by {
        lemma_combine_amount(combine_map(a, b), c, k);
        lemma_combine_amount(a, b, k);
        lemma_combine_amount(a, combine_map(b, c), k);
        lemma_combine_amount(b, c, k);
    }
    lemma_algebra_normalized(combine_map(a, b), c, 0);
    lemma_algebra_normalized(a, combine_map(b, c), 0);
    lemma_amounts_determine(combine_map(combine_map(a, b), c), combine_map(a, combine_map(b, c)));
}

/// Law: combining ledgers is commutative.
pub proof fn lemma_combine_commutative(a: Map<Seq<char>, int>, b: Map<Seq<char>, int>)
    ensures
        combine_map(a, b) == combine_map(b, a),
{
    assert forall|k: Seq<char>| #[trigger] amount_of(combine_map(a, b), k) == amount_of(
        combine_map(b, a),
        k,
    ) by {
        lemma_combine_amount(a, b, k);
        lemma_combine_amount(b, a, k);
    }
    lemma_algebra_normalized(a, b, 0);
    lemma_algebra_normalized(b, a, 0);
    lemma_amounts_determine(combine_map(a, b), combine_map(b, a));
}

/// Law: the empty ledger is the identity of combination.
pub proof fn lemma_combine_identity(a: Map<Seq<char>, int>)
    requires
        normalized(a),
    ensures
        combine_map(a, Map::<Seq<char>, int>::empty()) == a,
{
    assert forall|k: Seq<char>| #[trigger] amount_of(combine_map(a, Map::<Seq<char>, int>::empty()), k)
        == amount_of(a, k) by {
        lemma_combine_amount(a, Map::<Seq<char>, int>::empty(), k);
    }
    lemma_algebra_normalized(a, Map::<Seq<char>, int>::empty(), 0);
    lemma_amounts_determine(combine_map(a, Map::<Seq<char>, int>::empty()), a);
}

/// Law: scaling by `n` and then by `m` is scaling by `n * m`.
pub proof fn lemma_scale_compose(a: Map<Seq<char>, int>, n: int, m: int)
    ensures
        scale_map(scale_map(a, n), m) == scale_map(a, n * m),
{
    assert forall|k: Seq<char>| #[trigger] amount_of(scale_map(scale_map(a, n), m), k) == amount_of(
        scale_map(a, n * m),
        k,
    ) by {
        lemma_scale_amount(scale_map(a, n), m, k);
        lemma_scale_amount(a, n, k);
        lemma_scale_amount(a, n * m, k);
        vstd::arithmetic::mul::lemma_mul_is_associative(amount_of(a, k), n, m);
    }
    lemma_algebra_normalized(scale_map(a, n), scale_map(a, n), m);
    lemma_algebra_normalized(a, a, n * m);
    lemma_amounts_determine(scale_map(scale_map(a, n), m), scale_map(a, n * m));
}

/// Law: scaling by one changes nothing.
pub proof fn lemma_scale_one(a: Map<Seq<char>, int>)
    requires
        normalized(a),
    ensures
        scale_map(a, 1) == a,
{
    assert forall|k: Seq<char>| #[trigger] amount_of(scale_map(a, 1), k) == amount_of(a, k) by {
        lemma_scale_amount(a, 1, k);
    }
    lemma_algebra_normalized(a, a, 1);
    lemma_amounts_determine(scale_map(a, 1), a);
}

/// Law: scaling by zero leaves every key with no flow at all.
pub proof fn lemma_scale_zero(a: Map<Seq<char>, int>)
    ensures
        scale_map(a, 0) == Map::<Seq<char>, int>::empty(),
        forall|k: Seq<char>| amount_of(scale_map(a, 0), k) == 0,
{
    assert forall|k: Seq<char>| #[trigger] amount_of(scale_map(a, 0), k) == 0 by {
        lemma_scale_amount(a, 0, k);
    }
    assert(scale_map(a, 0) =~= Map::<Seq<char>, int>::empty());
}

/// Law: an entry with an explicit zero amount denotes the same ledger as no
/// entry at all.
pub proof fn lemma_zero_entry_ignored(s: Seq<(String, i64)>, key: String)
    ensures
        entries_map(s.push((key, 0 as i64))) == entries_map(s),
{
    assert(s.push((key, 0 as i64)).drop_last() =~= s);
}

/// Law: combining any ledger with the empty ledger (`Balance::new`) gives
/// its own mapping back.
pub proof fn lemma_balance_combine_identity(a: &Balance)
    requires
        a.wf(),
    ensures
        combine_map(a@, Map::<Seq<char>, int>::empty()) == a@,
{
    lemma_view_normalized(a);
    lemma_combine_identity(a@);
}

/// Law: scaling any ledger by one gives its own mapping back.
pub proof fn lemma_balance_scale_one(a: &Balance)
    requires
        a.wf(),
    ensures
        scale_map(a@, 1) == a@,
{
    lemma_view_normalized(a);
    lemma_scale_one(a@);
}

/// A well-formed ledger's mapping is normalized — no key flows an explicit
/// zero — and every recorded quantity fits in a signed 64-bit amount.
pub proof fn lemma_view_normalized(b: &Balance)
    requires
        b.wf(),
    ensures
        normalized(b@),
        amounts_fit(b@),
{
    lemma_entries_map_amounts(b.entries@);
}

/// With distinct keys, each entry's key flows exactly its amount — an
/// explicit zero entry flows nothing — only listed keys appear, and the
/// denoted ledger is normalized with amounts that fit 64 signed bits.
pub proof fn lemma_entries_map_amounts(s: Seq<(String, i64)>)
    requires
        distinct_keys(s),
    ensures
        forall|i: int|
            0 <= i < s.len() ==> amount_of(entries_map(s), #[trigger] s[i].0@) == s[i].1 as int,
        forall|k: Seq<char>|
            #[trigger] entries_map(s).dom().contains(k) ==> key_in_prefix(s, s.len() as int, k),
        normalized(entries_map(s)),
        amounts_fit(entries_map(s)),
    decreases s.len(),
{
    if s.len() > 0 {
        let head = s.drop_last();
        lemma_entries_map_amounts(head);
        assert(head.len() == s.len() - 1);
        assert forall|i: int|
            0 <= i < s.len() implies amount_of(entries_map(s), #[trigger] s[i].0@) == s[i].1
            as int by {
            if i < s.len() - 1 {
                assert(head[i] == s[i]);
                assert(amount_of(entries_map(head), head[i].0@) == head[i].1 as int);
                assert(s[i].0@ != s.last().0@);
            } else {
                if s.last().1 == 0 && entries_map(head).dom().contains(s.last().0@) {
                    let j = choose|j: int|
                        0 <= j < head.len() && head[j].0@ == s.last().0@;
                    assert(s[j].0@ == s.last().0@);
                    assert(false);
                }
            }
        }
        assert forall|k: Seq<char>|
            #[trigger] entries_map(s).dom().contains(k) implies key_in_prefix(
            s,
            s.len() as int,
            k,
        ) by {
            if s.last().1 != 0 && k == s.last().0@ {
                assert(s[s.len() - 1].0@ == k);
            } else {
                assert(entries_map(head).dom().contains(k));
                let j = choose|j: int| 0 <= j < head.len() && head[j].0@ == k;
                assert(s[j].0@ == k);
            }
        }
    }
}

/// A well-formed entry sequence denotes a normalized ledger.
proof fn lemma_normalized(s: Seq<(String, i64)>)
    requires
        distinct_keys(s),
        nonzero_amounts(s),
    ensures
        normalized(entries_map(s)),
{
    lemma_entries_map_props(s);
    assert forall|k: Seq<char>|
        entries_map(s).dom().contains(k) implies entries_map(s)[k] != 0 by {
        let j = choose|j: int| 0 <= j < s.len() && s[j].0@ == k;
        assert(entries_map(s)[s[j].0@] == s[j].1 as int);
    }
}

/// Two normalized ledgers that assign every key the same amount are equal.
pub proof fn lemma_amounts_determine(a: Map<Seq<char>, int>, b: Map<Seq<char>, int>)
    requires
        normalized(a),
        normalized(b),
        forall|k: Seq<char>| #[trigger] amount_of(a, k) == amount_of(b, k),
    ensures
        a == b,
{
    assert forall|k: Seq<char>|
        a.dom().contains(k) <==> #[trigger] b.dom().contains(k) by {
        assert(amount_of(a, k) == amount_of(b, k));
    }
    assert forall|k: Seq<char>| a.dom().contains(k) implies a[k] == b[k] by {
        assert(amount_of(a, k) == amount_of(b, k));
    }
    assert(a =~= b);
}

/// The amount a well-formed entry sequence assigns to each key is never zero,
/// and always fits in a signed 64-bit quantity.
proof fn lemma_entries_map_range(s: Seq<(String, i64)>, k: Seq<char>)
    requires
        distinct_keys(s),
        nonzero_amounts(s),
    ensures
        i64::MIN <= amount_of(entries_map(s), k) <= i64::MAX,
        entries_map(s).dom().contains(k) ==> entries_map(s)[k] != 0,
{
    lemma_entries_map_props(s);
    if entries_map(s).dom().contains(k) {
        let j = choose|j: int| 0 <= j < s.len() && s[j].0@ == k;
        assert(entries_map(s)[s[j].0@] == s[j].1 as int);
    }
}

} // verus!
