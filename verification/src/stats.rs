//! Aggregation of a stake snapshot into `(total, min, max)` statistics.
//!
//! The snapshot is a mapping from participant key to stake. A second mapping
//! of overrides replaces the snapshot value of any key it mentions;
//! override-only keys contribute their value directly. Entries with stake 0
//! are excluded before taking the total, minimum and maximum.

use vstd::prelude::*;

verus! {

/// Opaque fixed-size participant key; only equality of keys matters here.
#[derive(Clone, Copy, Debug)]
pub struct Pubkey {
    pub bytes: [u8; 32],
}

impl View for Pubkey {
    type V = Seq<u8>;

    open spec fn view(&self) -> Seq<u8> {
        self.bytes@
    }
}

impl Pubkey {
    /// Byte-wise key equality.
    pub fn key_eq(&self, other: &Pubkey) -> (r: bool)
        ensures
            r <==> self@ == other@,
    {
        for i in 0..32
            invariant
                forall|j: int| 0 <= j < i ==> self.bytes@[j] == other.bytes@[j],
        {
            if self.bytes[i] != other.bytes[i] {
                return false;
            }
        }
        proof {
            assert(self.bytes@ =~= other.bytes@);
        }
        true
    }
}

/// Whether some entry of `entries` carries the key `key`.
pub open spec fn key_in(entries: Seq<(Pubkey, u64)>, key: Seq<u8>) -> bool {
    exists|i: int| 0 <= i < entries.len() && entries[i].0@ == key
}

/// No two entries share a key, so the sequence represents a mapping.
pub open spec fn keys_distinct(entries: Seq<(Pubkey, u64)>) -> bool {
    forall|i: int, j: int| 0 <= i < j < entries.len() ==> entries[i].0@ != entries[j].0@
}

/// A stake mapping: association list of participant key and stake amount,
/// well-formed when its keys are distinct.
#[derive(Debug)]
pub struct StakeMap {
    pub entries: Vec<(Pubkey, u64)>,
}

impl View for StakeMap {
    type V = Seq<(Pubkey, u64)>;

    open spec fn view(&self) -> Seq<(Pubkey, u64)> {
        self.entries@
    }
}

impl StakeMap {
    pub open spec fn wf(self) -> bool {
        keys_distinct(self@)
    }

    pub fn new() -> (r: StakeMap)
        ensures
            r@ == Seq::<(Pubkey, u64)>::empty(),
            r.wf(),
    {
        StakeMap { entries: Vec::new() }
    }

    /// Whether `key` is present in the mapping.
    pub fn contains_key(&self, key: &Pubkey) -> (r: bool)
        ensures
            r == key_in(self@, key@),
    {
        let n = self.entries.len();
        for i in 0..n
            invariant
                n == self@.len(),
                forall|j: int| 0 <= j < i ==> self@[j].0@ != key@,
        {
            if self.entries[i].0.key_eq(key) {
                return true;
            }
        }
        false
    }

    /// The stake recorded for `key`, if any.
    pub fn get(&self, key: &Pubkey) -> (r: Option<u64>)
        requires
            self.wf(),
        ensures
            r == spec_get(self@, key@),
            r is Some <==> key_in(self@, key@),
    {
        let n = self.entries.len();
        for i in 0..n
            invariant
                n == self@.len(),
                self.wf(),
                forall|j: int| 0 <= j < i ==> self@[j].0@ != key@,
        {
            if self.entries[i].0.key_eq(key) {
                proof {
                    lemma_get_at_index(self@, key@, i as int);
                }
                return Some(self.entries[i].1);
            }
        }
        proof {
            lemma_get_some_iff(self@, key@);
        }
        None
    }
}

/// The stake recorded for `key`, searching from the back of the entry list.
pub open spec fn spec_get(entries: Seq<(Pubkey, u64)>, key: Seq<u8>) -> Option<u64>
    decreases entries.len(),
{
    if entries.len() == 0 {
        None
    } else if entries.last().0@ == key {
        Some(entries.last().1)
    } else {
        spec_get(entries.drop_last(), key)
    }
}

/// A key has a recorded stake exactly when it is present.
pub proof fn lemma_get_some_iff(entries: Seq<(Pubkey, u64)>, key: Seq<u8>)
    ensures
        spec_get(entries, key) is Some <==> key_in(entries, key),
    decreases entries.len(),
{
    if entries.len() > 0 {
        lemma_get_some_iff(entries.drop_last(), key);
        assert(forall|i: int|
            0 <= i < entries.len() - 1 ==> entries.drop_last()[i] == entries[i]);
        if key_in(entries, key) && entries.last().0@ != key {
            let w = choose|i: int| 0 <= i < entries.len() && entries[i].0@ == key;
            assert(entries.drop_last()[w] == entries[w]);
        }
    }
}

/// With distinct keys, the recorded stake is the one at any entry that
/// carries the key.
pub proof fn lemma_get_at_index(entries: Seq<(Pubkey, u64)>, key: Seq<u8>, i: int)
    requires
        keys_distinct(entries),
        0 <= i < entries.len(),
        entries[i].0@ == key,
    ensures
        spec_get(entries, key) == Some(entries[i].1),
    decreases entries.len(),
{
    if i < entries.len() - 1 {
        assert(entries.last().0@ != key);
        assert(forall|j: int|
            0 <= j < entries.len() - 1 ==> entries.drop_last()[j] == entries[j]);
        lemma_get_at_index(entries.drop_last(), key, i);
    }
}

/// The stake values contributed by the overrides, in entry order.
pub open spec fn override_values(overrides: Seq<(Pubkey, u64)>) -> Seq<u64> {
    overrides.map_values(|e: (Pubkey, u64)| e.1)
}

/// The snapshot values whose keys are not overridden, in entry order.
pub open spec fn retained_values(
    stakes: Seq<(Pubkey, u64)>,
    overrides: Seq<(Pubkey, u64)>,
) -> Seq<u64>
    decreases stakes.len(),
{
    if stakes.len() == 0 {
        Seq::empty()
    } else {
        retained_values(stakes.drop_last(), overrides) + (if key_in(
            overrides,
            stakes.last().0@,
        ) {
            Seq::<u64>::empty()
        } else {
            seq![stakes.last().1]
        })
    }
}

/// The effective value sequence the statistics are taken over: snapshot
/// entries not overridden, followed by all override values.
pub open spec fn effective_values(
    stakes: Seq<(Pubkey, u64)>,
    overrides: Seq<(Pubkey, u64)>,
) -> Seq<u64> {
    retained_values(stakes, overrides) + override_values(overrides)
}

/// Sum of the strictly positive values of `values`.
pub open spec fn positive_total(values: Seq<u64>) -> int
    decreases values.len(),
{
    if values.len() == 0 {
        0
    } else {
        positive_total(values.drop_last()) + (if values.last() > 0 {
            values.last() as int
        } else {
            0
        })
    }
}

/// Minimum and maximum of the strictly positive values of `values`, or
/// `None` when there is no positive value.
pub open spec fn positive_min_max(values: Seq<u64>) -> Option<(u64, u64)>
    decreases values.len(),
{
    if values.len() == 0 {
        None
    } else {
        let rest = positive_min_max(values.drop_last());
        let v = values.last();
        if v == 0 {
            rest
        } else {
            match rest {
                None => Some((v, v)),
                Some((lo, hi)) => Some(
                    ((if v < lo {
                        v
                    } else {
                        lo
                    }), (if hi < v {
                        v
                    } else {
                        hi
                    })),
                ),
            }
        }
    }
}

/// Min/max pair of the concatenation of two value sequences.
pub open spec fn merge_min_max(
    x: Option<(u64, u64)>,
    y: Option<(u64, u64)>,
) -> Option<(u64, u64)> {
    match y {
        None => x,
        Some((lo2, hi2)) => match x {
            None => y,
            Some((lo1, hi1)) => Some(
                ((if lo2 < lo1 {
                    lo2
                } else {
                    lo1
                }), (if hi1 < hi2 {
                    hi2
                } else {
                    hi1
                })),
            ),
        },
    }
}

pub proof fn lemma_positive_total_nonneg(values: Seq<u64>)
    ensures
        positive_total(values) >= 0,
    decreases values.len(),
{
    if values.len() > 0 {
        lemma_positive_total_nonneg(values.drop_last());
    }
}

/// How one appended value changes the statistics.
pub proof fn lemma_stats_push(values: Seq<u64>, v: u64)
    ensures
        positive_total(values.push(v)) == positive_total(values) + (if v > 0 {
            v as int
        } else {
            0
        }),
        positive_min_max(values.push(v)) == (if v == 0 {
            positive_min_max(values)
        } else {
            merge_min_max(positive_min_max(values), Some((v, v)))
        }),
{
    assert(values.push(v).drop_last() =~= values);
}

/// The statistics distribute over concatenation.
pub proof fn lemma_stats_concat(a: Seq<u64>, b: Seq<u64>)
    ensures
        positive_total(a + b) == positive_total(a) + positive_total(b),
        positive_min_max(a + b) == merge_min_max(positive_min_max(a), positive_min_max(b)),
    decreases b.len(),
{
    if b.len() == 0 {
        assert(a + b =~= a);
    } else {
        assert((a + b).drop_last() =~= a + b.drop_last());
        lemma_stats_concat(a, b.drop_last());
    }
}

/// The positive total of a prefix never exceeds that of the whole sequence.
pub proof fn lemma_positive_total_prefix(values: Seq<u64>, i: int)
    requires
        0 <= i <= values.len(),
    ensures
        positive_total(values.subrange(0, i)) <= positive_total(values),
    decreases values.len() - i,
{
    if i == values.len() {
        assert(values.subrange(0, i) =~= values);
    } else {
        assert(values.subrange(0, i + 1).drop_last() =~= values.subrange(0, i));
        lemma_positive_total_prefix(values, i + 1);
    }
}

/// The retained values of a snapshot prefix contribute no more than those of
/// the whole snapshot.
pub proof fn lemma_retained_prefix(
    stakes: Seq<(Pubkey, u64)>,
    overrides: Seq<(Pubkey, u64)>,
    i: int,
)
    requires
        0 <= i <= stakes.len(),
    ensures
        positive_total(retained_values(stakes.subrange(0, i), overrides)) <= positive_total(
            retained_values(stakes, overrides),
        ),
    decreases stakes.len() - i,
{
    if i == stakes.len() {
        assert(stakes.subrange(0, i) =~= stakes);
    } else {
        assert(stakes.subrange(0, i + 1).drop_last() =~= stakes.subrange(0, i));
        assert(stakes.subrange(0, i + 1).last() == stakes[i]);
        let tail = if key_in(overrides, stakes[i].0@) {
            Seq::<u64>::empty()
        } else {
            seq![stakes[i].1]
        };
        assert(retained_values(stakes.subrange(0, i + 1), overrides) == retained_values(
            stakes.subrange(0, i),
            overrides,
        ) + tail);
        lemma_stats_concat(retained_values(stakes.subrange(0, i), overrides), tail);
        lemma_positive_total_nonneg(tail);
        lemma_retained_prefix(stakes, overrides, i + 1);
    }
}

/// A sequence has positive total zero exactly when it has no positive value,
/// which is also exactly when it has no minimum/maximum pair.
pub proof fn lemma_no_positive(values: Seq<u64>)
    ensures
        positive_total(values) == 0 <==> positive_min_max(values) is None,
        positive_min_max(values) is None <==> (forall|i: int|
            0 <= i < values.len() ==> values[i] == 0),
    decreases values.len(),
{
    if values.len() > 0 {
        lemma_no_positive(values.drop_last());
        lemma_positive_total_nonneg(values.drop_last());
        if positive_min_max(values) is None {
            assert(forall|i: int| 0 <= i < values.len() - 1 ==> values[i] == values.drop_last()[i]);
        }
        if forall|i: int| 0 <= i < values.len() ==> values[i] == 0 {
            assert(forall|i: int|
                0 <= i < values.drop_last().len() ==> values.drop_last()[i] == values[i]);
        }
    }
}

/// Law: the total is zero exactly when filtering left no positive stake; in
/// that case there is no minimum/maximum either.
pub proof fn lemma_zero_total_means_empty(
    stakes: Seq<(Pubkey, u64)>,
    overrides: Seq<(Pubkey, u64)>,
)
    ensures
        positive_total(effective_values(stakes, overrides)) == 0 <==> (forall|i: int|
            0 <= i < effective_values(stakes, overrides).len() ==> effective_values(
                stakes,
                overrides,
            )[i] == 0),
        positive_total(effective_values(stakes, overrides)) == 0 <==> positive_min_max(
            effective_values(stakes, overrides),
        ) is None,
{
    lemma_no_positive(effective_values(stakes, overrides));
}

/// The positive minimum never exceeds the positive maximum, which never
/// exceeds the positive total.
pub proof fn lemma_min_max_bounds(values: Seq<u64>)
    ensures
        positive_min_max(values) matches Some((lo, hi)) ==> 0 < lo <= hi <= positive_total(
            values,
        ),
    decreases values.len(),
{
    if values.len() > 0 {
        lemma_min_max_bounds(values.drop_last());
        lemma_positive_total_nonneg(values.drop_last());
    }
}

/// Law: `min <= max <= total` whenever at least one positive stake survives
/// the filter.
pub proof fn lemma_stats_ordered(stakes: Seq<(Pubkey, u64)>, overrides: Seq<(Pubkey, u64)>)
    ensures
        positive_min_max(effective_values(stakes, overrides)) matches Some((lo, hi)) ==> 0 < lo
            <= hi <= positive_total(effective_values(stakes, overrides)),
{
    lemma_min_max_bounds(effective_values(stakes, overrides));
}

/// Appending a value of zero anywhere in a value sequence changes none of the
/// statistics.
pub proof fn lemma_zero_value_elided(a: Seq<u64>, b: Seq<u64>)
    ensures
        positive_total(a + seq![0u64] + b) == positive_total(a + b),
        positive_min_max(a + seq![0u64] + b) == positive_min_max(a + b),
{
    lemma_stats_concat(a, b);
    lemma_stats_concat(a + seq![0u64], b);
    assert(a + seq![0u64] =~= a.push(0u64));
    lemma_stats_push(a, 0u64);
}

/// Law: a zero-stake snapshot entry (for a key that is not overridden) never
/// affects `(total, min, max)`.
pub proof fn lemma_zero_snapshot_entry_ignored(
    stakes: Seq<(Pubkey, u64)>,
    overrides: Seq<(Pubkey, u64)>,
    key: Pubkey,
)
    requires
        !key_in(overrides, key@),
    ensures
        positive_total(effective_values(stakes.push((key, 0u64)), overrides)) == positive_total(
            effective_values(stakes, overrides),
        ),
        positive_min_max(effective_values(stakes.push((key, 0u64)), overrides))
            == positive_min_max(effective_values(stakes, overrides)),
{
    let pushed = stakes.push((key, 0u64));
    assert(pushed.drop_last() =~= stakes);
    assert(retained_values(pushed, overrides) == retained_values(stakes, overrides)
        + seq![0u64]);
    assert(effective_values(pushed, overrides) =~= retained_values(stakes, overrides)
        + seq![0u64] + override_values(overrides));
    lemma_zero_value_elided(retained_values(stakes, overrides), override_values(overrides));
}

/// Overriding a key leaves the snapshot values of every other key alone.
pub proof fn lemma_retained_unaffected(
    stakes: Seq<(Pubkey, u64)>,
    overrides: Seq<(Pubkey, u64)>,
    key: Pubkey,
    stake: u64,
)
    requires
        !key_in(stakes, key@),
    ensures
        retained_values(stakes, overrides.push((key, stake))) == retained_values(
            stakes,
            overrides,
        ),
    decreases stakes.len(),
{
    if stakes.len() > 0 {
        assert(forall|i: int|
            0 <= i < stakes.len() - 1 ==> stakes.drop_last()[i] == stakes[i]);
        lemma_retained_unaffected(stakes.drop_last(), overrides, key, stake);
        let last_key = stakes.last().0@;
        assert(stakes[stakes.len() - 1].0@ == last_key);
        assert(last_key != key@);
        assert(key_in(overrides.push((key, stake)), last_key) == key_in(overrides, last_key)) by {
            if key_in(overrides, last_key) {
                let w = choose|i: int|
                    0 <= i < overrides.len() && overrides[i].0@ == last_key;
                assert(overrides.push((key, stake))[w].0@ == last_key);
            }
            if key_in(overrides.push((key, stake)), last_key) {
                let w = choose|i: int|
                    0 <= i < overrides.push((key, stake)).len() && overrides.push(
                        (key, stake),
                    )[i].0@ == last_key;
                assert(w < overrides.len());
                assert(overrides[w].0@ == last_key);
            }
        }
    }
}

/// Law: a zero-stake override entry, for a key absent from the snapshot,
/// never affects `(total, min, max)`.
pub proof fn lemma_zero_override_entry_ignored(
    stakes: Seq<(Pubkey, u64)>,
    overrides: Seq<(Pubkey, u64)>,
    key: Pubkey,
)
    requires
        !key_in(stakes, key@),
    ensures
        positive_total(effective_values(stakes, overrides.push((key, 0u64)))) == positive_total(
            effective_values(stakes, overrides),
        ),
        positive_min_max(effective_values(stakes, overrides.push((key, 0u64))))
            == positive_min_max(effective_values(stakes, overrides)),
{
    let pushed = overrides.push((key, 0u64));
    lemma_retained_unaffected(stakes, overrides, key, 0u64);
    assert(override_values(pushed) =~= override_values(overrides).push(0u64));
    assert(effective_values(stakes, pushed) =~= (retained_values(stakes, overrides)
        + override_values(overrides)).push(0u64));
    lemma_stats_push(retained_values(stakes, overrides) + override_values(overrides), 0u64);
}

/// Law: an override for a key supersedes that key's snapshot value entirely:
/// whatever stake the snapshot records for an overridden key, the effective
/// value sequence is the same, so the snapshot value is never counted.
pub proof fn lemma_override_supersedes(
    stakes: Seq<(Pubkey, u64)>,
    overrides: Seq<(Pubkey, u64)>,
    key: Pubkey,
    stake: u64,
)
    requires
        key_in(overrides, key@),
    ensures
        effective_values(stakes.push((key, stake)), overrides) == effective_values(
            stakes,
            overrides,
        ),
{
    let pushed = stakes.push((key, stake));
    assert(pushed.drop_last() =~= stakes);
    assert(retained_values(pushed, overrides) == retained_values(stakes, overrides)
        + Seq::<u64>::empty());
    assert(retained_values(stakes, overrides) + Seq::<u64>::empty() =~= retained_values(
        stakes,
        overrides,
    ));
    assert(effective_values(pushed, overrides) =~= effective_values(stakes, overrides));
}

/// Reduces the snapshot, with the overrides applied, to
/// `(total, min, max)` over the strictly positive effective stakes. When no
/// positive stake survives the filter, the result is `(0, 0, 0)`.
#[verifier::loop_isolation(false)]
pub fn calculate_stake_stats(stakes: &StakeMap, overrides: &StakeMap) -> (r: (u64, u64, u64))
    requires
        stakes.wf(),
        overrides.wf(),
        positive_total(effective_values(stakes@, overrides@)) <= u64::MAX,
    ensures
        r.0 == positive_total(effective_values(stakes@, overrides@)),
        positive_min_max(effective_values(stakes@, overrides@)) matches Some((lo, hi)) ==> r.1
            == lo && r.2 == hi,
        positive_min_max(effective_values(stakes@, overrides@)) is None ==> r.1 == 0 && r.2 == 0,
{
    let ghost all_vals = effective_values(stakes@, overrides@);
    let mut total: u64 = 0;
    let mut have: bool = false;
    let mut lo: u64 = 0;
    let mut hi: u64 = 0;

    let n = stakes.entries.len();
    for i in 0..n
        invariant
            n == stakes@.len(),
            total == positive_total(retained_values(stakes@.subrange(0, i as int), overrides@)),
            have == (positive_min_max(
                retained_values(stakes@.subrange(0, i as int), overrides@),
            ) is Some),
            positive_min_max(
                retained_values(stakes@.subrange(0, i as int), overrides@),
            ) matches Some((a, b)) ==> lo == a && hi == b,
            !have ==> lo == 0 && hi == 0,
    {
        let (key, stake) = stakes.entries[i];
        let ghost prefix = retained_values(stakes@.subrange(0, i as int), overrides@);
        let overridden = overrides.contains_key(&key);
        proof {
            assert(stakes@.subrange(0, i + 1 as int).drop_last() =~= stakes@.subrange(0, i as int));
            assert(stakes@.subrange(0, i + 1 as int).last() == stakes@[i as int]);
            if overridden {
                assert(retained_values(stakes@.subrange(0, i + 1 as int), overrides@) == prefix
                    + Seq::<u64>::empty());
                assert(prefix + Seq::<u64>::empty() =~= prefix);
            } else {
                assert(retained_values(stakes@.subrange(0, i + 1 as int), overrides@) == prefix
                    + seq![stake]);
                assert(prefix + seq![stake] =~= prefix.push(stake));
                lemma_stats_push(prefix, stake);
                if stake > 0 {
                    lemma_retained_prefix(stakes@, overrides@, i + 1 as int);
                    lemma_stats_concat(
                        retained_values(stakes@, overrides@),
                        override_values(overrides@),
                    );
                    lemma_positive_total_nonneg(override_values(overrides@));
                }
            }
        }
        if !overridden && stake > 0 {
            total = total + stake;
            if !have {
                have = true;
                lo = stake;
                hi = stake;
            } else {
                if stake < lo {
                    lo = stake;
                }
                if stake > hi {
                    hi = stake;
                }
            }
        }
    }
    let ghost base = retained_values(stakes@, overrides@);
    let ghost ov_vals = override_values(overrides@);
    proof {
        assert(stakes@.subrange(0, n as int) =~= stakes@);
        assert(base + ov_vals.subrange(0, 0) =~= base);
    }

    let m = overrides.entries.len();
    for i in 0..m
        invariant
            m == overrides@.len(),
            total == positive_total(base + ov_vals.subrange(0, i as int)),
            have == (positive_min_max(base + ov_vals.subrange(0, i as int)) is Some),
            positive_min_max(base + ov_vals.subrange(0, i as int)) matches Some((a, b)) ==> lo == a
                && hi == b,
            !have ==> lo == 0 && hi == 0,
    {
        let (_, stake) = overrides.entries[i];
        let ghost prefix = base + ov_vals.subrange(0, i as int);
        proof {
            assert(ov_vals[i as int] == stake);
            assert(base + ov_vals.subrange(0, i + 1 as int) =~= prefix.push(stake));
            lemma_stats_push(prefix, stake);
            if stake > 0 {
                lemma_stats_concat(base, ov_vals.subrange(0, i + 1 as int));
                lemma_positive_total_prefix(ov_vals, i + 1 as int);
                lemma_stats_concat(base, ov_vals);
                assert(all_vals == base + ov_vals);
            }
        }
        if stake > 0 {
            total = total + stake;
            if !have {
                have = true;
                lo = stake;
                hi = stake;
            } else {
                if stake < lo {
                    lo = stake;
                }
                if stake > hi {
                    hi = stake;
                }
            }
        }
    }
    proof {
        assert(base + ov_vals.subrange(0, m as int) =~= all_vals);
    }
    (total, lo, hi)
}

} // verus!
