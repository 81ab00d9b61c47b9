use vstd::prelude::*;

use crate::calendar::Date;

verus! {

/// One persisted monthly exchange rate, as the rate store holds it.
///
/// The stored direction is "one unit of `from_currency` equals this many
/// units of `to_currency`". The numeric value is carried as the IEEE-754
/// bit pattern of the store's binary64 column: the engine never interprets
/// it beyond finiteness, so bits are the honest representation. Row
/// identity is an opaque surrogate handle.
pub struct StoredRate {
    pub id: u64,
    pub from_currency: String,
    pub to_currency: String,
    pub rate_bits: u64,
    pub month: u8,
    pub year: i32,
    pub recorded_at: Date,
}

impl StoredRate {
    pub open spec fn wf(self) -> bool {
        &&& self.year >= 1
        &&& 1 <= self.month <= 12
        &&& self.recorded_at.wf()
    }
}

impl Clone for StoredRate {
    fn clone(&self) -> (r: Self)
        ensures
            r == *self,
    {
        StoredRate {
            id: self.id,
            from_currency: self.from_currency.clone(),
            to_currency: self.to_currency.clone(),
            rate_bits: self.rate_bits,
            month: self.month,
            year: self.year,
            recorded_at: self.recorded_at,
        }
    }
}

/// The composite key under which at most one live rate may exist.
pub open spec fn key_of(r: StoredRate) -> (i32, u8, Seq<char>, Seq<char>) {
    (r.year, r.month, r.from_currency@, r.to_currency@)
}

/// A well-formed snapshot of the rate store: every row well-formed, at most
/// one live row per composite key, and surrogate handles distinct.
pub open spec fn snapshot_wf(s: Seq<StoredRate>) -> bool {
    &&& forall|i: int| 0 <= i < s.len() ==> (#[trigger] s[i]).wf()
    &&& forall|i: int, j: int|
        0 <= i < j < s.len() ==> key_of(#[trigger] s[i]) != key_of(#[trigger] s[j])
    &&& forall|i: int, j: int| 0 <= i < j < s.len() ==> (#[trigger] s[i]).id != (#[trigger] s[j]).id
}

/// The index of the first row with the given key, if any.
pub open spec fn spec_find_rate(
    s: Seq<StoredRate>,
    year: i32,
    month: u8,
    from: Seq<char>,
    to: Seq<char>,
) -> Option<int>
    decreases s.len(),
{
    if s.len() == 0 {
        None
    } else if key_of(s[0]) == (year, month, from, to) {
        Some(0)
    } else {
        match spec_find_rate(s.drop_first(), year, month, from, to) {
            Some(i) => Some(i + 1),
            None => None,
        }
    }
}

pub proof fn lemma_find_rate_props(
    s: Seq<StoredRate>,
    year: i32,
    month: u8,
    from: Seq<char>,
    to: Seq<char>,
)
    ensures
        match spec_find_rate(s, year, month, from, to) {
            Some(i) => {
                &&& 0 <= i < s.len()
                &&& key_of(s[i]) == (year, month, from, to)
                &&& forall|j: int| 0 <= j < i ==> key_of(#[trigger] s[j]) != (year, month, from, to)
            },
            None => forall|j: int|
                0 <= j < s.len() ==> key_of(#[trigger] s[j]) != (year, month, from, to),
        },
    decreases s.len(),
{
    if s.len() > 0 {
        lemma_find_rate_props(s.drop_first(), year, month, from, to);
        assert forall|j: int| 1 <= j < s.len() implies s.drop_first()[j - 1] == s[j] by {}
    }
}

/// Looks up the row with the given composite key in the snapshot, returning
/// its index.
pub fn find_rate(
    snapshot: &Vec<StoredRate>,
    year: i32,
    month: u8,
    from: &String,
    to: &String,
) -> (r: Option<usize>)
    ensures
        match r {
            Some(i) => Some(i as int) == spec_find_rate(snapshot@, year, month, from@, to@),
            None => spec_find_rate(snapshot@, year, month, from@, to@) is None,
        },
{
    let n = snapshot.len();
    let mut i: usize = 0;
    while i < n
        invariant
            n == snapshot@.len(),
            0 <= i <= n,
            forall|j: int| 0 <= j < i ==> key_of(#[trigger] snapshot@[j]) != (year, month, from@, to@),
        decreases n - i,
    {
        let row = &snapshot[i];
        if row.year == year && row.month == month && row.from_currency.eq(from)
            && row.to_currency.eq(to) {
            proof {
                lemma_find_rate_props(snapshot@, year, month, from@, to@);
                assert(key_of(snapshot@[i as int]) == (year, month, from@, to@));
                let r = spec_find_rate(snapshot@, year, month, from@, to@);
                if r is Some {
                    let k = r->0;
                    if k < i {
                        assert(key_of(snapshot@[k]) != (year, month, from@, to@));
                    } else if k > i {
                        assert(key_of(snapshot@[i as int]) != (year, month, from@, to@));
                    }
                }
            }
            return Some(i);
        }
        i += 1;
    }
    proof {
        lemma_find_rate_props(snapshot@, year, month, from@, to@);
    }
    None
}

} // verus!
