//! Sharding: splitting the mutants of a manifest among `N` test jobs.
use vstd::prelude::*;

use crate::text::{
    chars_of, decimal, decimal_chars, first_index, lemma_first_index, parse_unsigned,
    parse_unsigned_chars, push_all, slice_chars, starts_with, string_of,
};

verus! {

/// Errors in reading a partition spec.
#[derive(Debug)]
pub enum PartitionError {
    InvalidFormat(String),
    IndexTooLow(u32),
    IndexExceedsTotal { index: u32, total: u32 },
    TotalTooLow(u32),
}

impl PartitionError {
    /// The error's message.
    pub fn to_string(&self) -> (r: String)
        ensures
            r@ == match *self {
                PartitionError::InvalidFormat(s) => "invalid partition format: "@ + s@
                    + " (expected 'slice:M/N')"@,
                PartitionError::IndexTooLow(n) => "partition index must be >= 1, got "@ + decimal(
                    n as nat,
                ),
                PartitionError::IndexExceedsTotal { index, total } => "partition index "@
                    + decimal(index as nat) + " exceeds total "@ + decimal(total as nat),
                PartitionError::TotalTooLow(n) => "partition total must be >= 1, got "@ + decimal(
                    n as nat,
                ),
            },
    {
        match self {
            PartitionError::InvalidFormat(s) => {
                let mut v = chars_of("invalid partition format: ");
                push_all(&mut v, &chars_of(s.as_str()));
                push_all(&mut v, &chars_of(" (expected 'slice:M/N')"));
                string_of(&v)
            },
            PartitionError::IndexTooLow(n) => {
                let mut v = chars_of("partition index must be >= 1, got ");
                push_all(&mut v, &decimal_chars(*n as u64));
                string_of(&v)
            },
            PartitionError::IndexExceedsTotal { index, total } => {
                let mut v = chars_of("partition index ");
                push_all(&mut v, &decimal_chars(*index as u64));
                push_all(&mut v, &chars_of(" exceeds total "));
                push_all(&mut v, &decimal_chars(*total as u64));
                string_of(&v)
            },
            PartitionError::TotalTooLow(n) => {
                let mut v = chars_of("partition total must be >= 1, got ");
                push_all(&mut v, &decimal_chars(*n as u64));
                string_of(&v)
            },
        }
    }
}

/// The `index`-th (1-based) of `total` shards.
#[derive(Debug, Clone, PartialEq)]
pub struct Partition {
    pub index: u32,
    pub total: u32,
}

/// Whether shard `p` owns the item at 0-based position `i`: items are dealt
/// round-robin by position, position `i` going to shard `i % total + 1`.
pub open spec fn owns(p: Partition, i: int) -> bool {
    i % (p.total as int) == p.index - 1
}

/// The positions below `n` that shard `p` owns, in increasing order.
pub open spec fn owned_positions(p: Partition, n: nat) -> Seq<int>
    decreases n,
{
    if n == 0 {
        Seq::empty()
    } else {
        let rest = owned_positions(p, (n - 1) as nat);
        if owns(p, n - 1) {
            rest.push(n - 1)
        } else {
            rest
        }
    }
}

/// The items that shard `p` owns, in their order in `items`.
pub open spec fn owned_items<T>(p: Partition, items: Seq<T>) -> Seq<T> {
    owned_positions(p, items.len()).map_values(|k: int| items[k])
}

impl Partition {
    /// The items this shard owns, in order: the item at 0-based position `i`
    /// belongs to shard `i % total + 1`. The identifier function is not consulted;
    /// the deal goes by position alone.
    pub fn filter<'a, T, F>(&self, items: &'a [T], _id_fn: F) -> (r: Vec<&'a T>) where
        F: Fn(&T) -> u32,

        requires
            items@.len() > 0 ==> self.index >= 1 && self.total >= 1,
        ensures
            r@.map_values(|x: &T| *x) == owned_items(*self, items@),
    {
        let mut r: Vec<&'a T> = Vec::new();
        if items.len() == 0 {
            assert(r@.map_values(|x: &T| *x) =~= owned_items(*self, items@));
            return r;
        }
        let mut i: usize = 0;
        while i < items.len()
            invariant
                i <= items.len(),
                self.index >= 1,
                self.total >= 1,
                r@.map_values(|x: &T| *x) == owned_positions(*self, i as nat).map_values(
                    |k: int| items@[k],
                ),
            decreases items.len() - i,
        {
            let ghost before = owned_positions(*self, i as nat);
            if i as u64 % self.total as u64 == self.index as u64 - 1 {
                let ghost old_r = r@;
                r.push(&items[i]);
                assert(owned_positions(*self, (i + 1) as nat) == before.push(i as int));
                assert(r@ == old_r.push(&items@[i as int]));
                assert(old_r.len() == old_r.map_values(|x: &T| *x).len());
                assert(before.len() == before.map_values(|k: int| items@[k]).len());
                assert forall|j: int| 0 <= j < old_r.len() implies *old_r[j] == items@[before[j]] by {
                    assert(old_r.map_values(|x: &T| *x)[j] == *old_r[j]);
                    assert(before.map_values(|k: int| items@[k])[j] == items@[before[j]]);
                }
                assert(r@.map_values(|x: &T| *x) =~= before.push(i as int).map_values(
                    |k: int| items@[k],
                ));
            }
            i += 1;
        }
        r
    }

    /// Reads a partition spec `slice:M/N`: shard `M` of `N`, `1 <= M <= N`.
    pub fn parse(s: &str) -> (r: Result<Partition, PartitionError>)
        ensures
            match partition_of(s@) {
                PartitionOutcome::Shard(m, n) => r matches Ok(p) && p.index == m && p.total == n,
                PartitionOutcome::InvalidFormat => r matches Err(PartitionError::InvalidFormat(e))
                    && e@ == s@,
                PartitionOutcome::TotalTooLow => r matches Err(PartitionError::TotalTooLow(n))
                    && n == 0,
                PartitionOutcome::IndexTooLow => r matches Err(PartitionError::IndexTooLow(m))
                    && m == 0,
                PartitionOutcome::IndexExceedsTotal(m, n) => r matches Err(
                    PartitionError::IndexExceedsTotal { index, total },
                ) && index == m && total == n,
            },
    {
        let v = chars_of(s);
        proof {
            reveal_strlit("slice:");
        }
        if !crate::text::has_prefix(&v, &chars_of("slice:")) {
            return Err(PartitionError::InvalidFormat(string_of(&v)));
        }
        let rest = slice_chars(&v, 6, v.len());
        assert(rest@ == s@.skip(6));
        let k = match crate::text::find_char(&rest, '/') {
            Some(k) => k,
            None => {
                return Err(PartitionError::InvalidFormat(string_of(&v)));
            },
        };
        proof {
            lemma_first_index(rest@, '/');
        }
        let a = slice_chars(&rest, 0, k);
        let b = slice_chars(&rest, k + 1, rest.len());
        assert(a@ == rest@.take(k as int));
        assert(b@ == rest@.skip(k + 1));
        if crate::text::find_char(&b, '/').is_some() {
            return Err(PartitionError::InvalidFormat(string_of(&v)));
        }
        let index = match parse_unsigned_chars(&a, 0xffff_ffffu64) {
            Ok(n) => n,
            Err(_) => {
                return Err(PartitionError::InvalidFormat(string_of(&v)));
            },
        };
        let total = match parse_unsigned_chars(&b, 0xffff_ffffu64) {
            Ok(n) => n,
            Err(_) => {
                return Err(PartitionError::InvalidFormat(string_of(&v)));
            },
        };
        proof {
            crate::text::lemma_digits_value_bound(a@, 0, u32::MAX as int);
            crate::text::lemma_digits_value_bound(b@, 0, u32::MAX as int);
            if a@.len() > 0 {
                crate::text::lemma_digits_value_bound(a@.drop_first(), 0, u32::MAX as int);
            }
            if b@.len() > 0 {
                crate::text::lemma_digits_value_bound(b@.drop_first(), 0, u32::MAX as int);
            }
        }
        let index = index as u32;
        let total = total as u32;
        if total == 0 {
            return Err(PartitionError::TotalTooLow(total));
        }
        if index == 0 {
            return Err(PartitionError::IndexTooLow(index));
        }
        if index > total {
            return Err(PartitionError::IndexExceedsTotal { index, total });
        }
        Ok(Partition { index, total })
    }
}

impl std::str::FromStr for Partition {
    type Err = PartitionError;

    fn from_str(s: &str) -> (r: Result<Partition, PartitionError>)
        ensures
            match partition_of(s@) {
                PartitionOutcome::Shard(m, n) => r matches Ok(p) && p.index == m && p.total == n,
                PartitionOutcome::InvalidFormat => r matches Err(PartitionError::InvalidFormat(e))
                    && e@ == s@,
                PartitionOutcome::TotalTooLow => r matches Err(PartitionError::TotalTooLow(n))
                    && n == 0,
                PartitionOutcome::IndexTooLow => r matches Err(PartitionError::IndexTooLow(m))
                    && m == 0,
                PartitionOutcome::IndexExceedsTotal(m, n) => r matches Err(
                    PartitionError::IndexExceedsTotal { index, total },
                ) && index == m && total == n,
            },
    {
        Partition::parse(s)
    }
}

/// What a partition spec reads as.
pub enum PartitionOutcome {
    Shard(int, int),
    InvalidFormat,
    TotalTooLow,
    IndexTooLow,
    IndexExceedsTotal(int, int),
}

/// A partition spec: `slice:` then `M/N`, both decimal `u32`s (no second `/`);
/// the total must be at least 1, then the index at least 1 and at most the total.
pub open spec fn partition_of(s: Seq<char>) -> PartitionOutcome {
    if !starts_with(s, "slice:"@) {
        PartitionOutcome::InvalidFormat
    } else {
        let rest = s.skip(6);
        let k = first_index(rest, '/');
        if k < 0 || first_index(rest.skip(k + 1), '/') >= 0 {
            PartitionOutcome::InvalidFormat
        } else {
            match (
                parse_unsigned(rest.take(k), u32::MAX as int),
                parse_unsigned(rest.skip(k + 1), u32::MAX as int),
            ) {
                (Ok(m), Ok(n)) => if n == 0 {
                    PartitionOutcome::TotalTooLow
                } else if m == 0 {
                    PartitionOutcome::IndexTooLow
                } else if m > n {
                    PartitionOutcome::IndexExceedsTotal(m, n)
                } else {
                    PartitionOutcome::Shard(m, n)
                },
                _ => PartitionOutcome::InvalidFormat,
            }
        }
    }
}

/// The positions a shard owns lie below `n`, are owned by it, come in increasing
/// order, and include every position below `n` that it owns.
pub proof fn lemma_owned_positions(p: Partition, n: nat)
    requires
        p.total >= 1,
    ensures
        forall|j: int|
            0 <= j < owned_positions(p, n).len() ==> 0 <= #[trigger] owned_positions(p, n)[j] < n
                && owns(p, owned_positions(p, n)[j]),
        forall|a: int, b: int|
            0 <= a < b < owned_positions(p, n).len() ==> owned_positions(p, n)[a]
                < owned_positions(p, n)[b],
        forall|i: int| 0 <= i < n && owns(p, i) ==> #[trigger] owned_positions(p, n).contains(i),
    decreases n,
{
    if n > 0 {
        lemma_owned_positions(p, (n - 1) as nat);
        let rest = owned_positions(p, (n - 1) as nat);
        assert forall|i: int| 0 <= i < n && owns(p, i) implies #[trigger] owned_positions(
            p,
            n,
        ).contains(i) by {
            if i < n - 1 {
                assert(rest.contains(i));
                let j = choose|j: int| 0 <= j < rest.len() && rest[j] == i;
                assert(owned_positions(p, n)[j] == i);
            } else {
                assert(owned_positions(p, n)[rest.len() as int] == i);
            }
        }
    }
}

/// The shard, among `total`, that owns position `i`: shard `i % total + 1`.
pub open spec fn shard_of(total: u32, i: int) -> Partition {
    Partition { index: (i % (total as int) + 1) as u32, total }
}

/// Over all `total` shards, every item is dealt exactly once: the item at
/// position `i` is among the items of shard `i % total + 1`, at no other
/// position of that shard, and among the items of no other shard.
pub proof fn law_each_item_in_exactly_one_shard(total: u32, n: nat, i: int)
    requires
        total >= 1,
        0 <= i < n,
    ensures
        1 <= shard_of(total, i).index <= total,
        owned_positions(shard_of(total, i), n).contains(i),
        forall|a: int, b: int|
            0 <= a < b < owned_positions(shard_of(total, i), n).len() ==> #[trigger] owned_positions(
                shard_of(total, i),
                n,
            )[a] != #[trigger] owned_positions(shard_of(total, i), n)[b],
        forall|k: u32|
            1 <= k <= total && #[trigger] owned_positions(Partition { index: k, total }, n).contains(i)
                ==> k == shard_of(total, i).index,
{
    let p = shard_of(total, i);
    lemma_owned_positions(p, n);
    assert forall|k: u32|
        1 <= k <= total && #[trigger] owned_positions(Partition { index: k, total }, n).contains(
            i,
        ) implies k == shard_of(total, i).index by {
        let q = Partition { index: k, total };
        lemma_owned_positions(q, n);
        let j = choose|j: int| 0 <= j < owned_positions(q, n).len() && owned_positions(q, n)[j] == i;
        assert(owns(q, owned_positions(q, n)[j]));
    }
}

/// `Partition::parse` accepts every spec `slice:M/N` with `M` and `N` written in
/// decimal and `1 <= M <= N`, and reads it as shard `M` of `N`.
pub proof fn law_parse_accepts_slice(m: u32, n: u32)
    requires
        1 <= m <= n,
    ensures
        partition_of("slice:"@ + decimal(m as nat) + "/"@ + decimal(n as nat)) matches PartitionOutcome::Shard(a, b)
            && a == m && b == n,
{
    reveal_strlit("slice:");
    reveal_strlit("/");
    let dm = decimal(m as nat);
    let dn = decimal(n as nat);
    crate::text::lemma_decimal_reads_back(m as nat, u32::MAX as int);
    crate::text::lemma_decimal_reads_back(n as nat, u32::MAX as int);
    let s = "slice:"@ + dm + "/"@ + dn;
    assert(s.take(6) =~= "slice:"@);
    let rest = s.skip(6);
    assert(rest =~= dm + "/"@ + dn);
    let k = dm.len() as int;
    assert(rest[k] == '/');
    assert forall|j: int| 0 <= j < k implies rest[j] != '/' by {
        assert(rest[j] == dm[j]);
        assert(crate::text::is_digit(dm[j]));
    }
    crate::text::lemma_first_index_is(rest, '/', k);
    assert(rest.take(k) =~= dm);
    assert(rest.skip(k + 1) =~= dn);
    assert forall|j: int| 0 <= j < dn.len() implies dn[j] != '/' by {
        assert(crate::text::is_digit(dn[j]));
    }
    crate::text::lemma_first_index_is(dn, '/', -1);
    assert(crate::text::is_digit(dm[0]) && crate::text::is_digit(dn[0]));
}

/// A spec that reads as a shard is `slice:`, then the index, `/` and the total,
/// each read as an unsigned decimal, with no `/` in either.
pub proof fn law_parsed_shard_has_slice_form(s: Seq<char>)
    ensures
        partition_of(s) matches PartitionOutcome::Shard(m, n) ==> exists|a: Seq<char>, b: Seq<char>|
            {
                &&& s == "slice:"@ + a + "/"@ + b
                &&& first_index(a, '/') < 0
                &&& first_index(b, '/') < 0
                &&& parse_unsigned(a, u32::MAX as int) == Ok::<int, crate::text::IntErrorKind>(m)
                &&& parse_unsigned(b, u32::MAX as int) == Ok::<int, crate::text::IntErrorKind>(n)
            },
{
    reveal_strlit("slice:");
    reveal_strlit("/");
    if partition_of(s) matches PartitionOutcome::Shard(m, n) {
        let rest = s.skip(6);
        let k = first_index(rest, '/');
        lemma_first_index(rest, '/');
        let a = rest.take(k);
        let b = rest.skip(k + 1);
        assert(s =~= "slice:"@ + a + "/"@ + b);
        crate::text::lemma_first_index_is(a, '/', -1);
    }
}

/// A shard spec that reads back is in range: `1 <= index <= total`.
pub proof fn law_parsed_shard_in_range(s: Seq<char>)
    ensures
        partition_of(s) matches PartitionOutcome::Shard(m, n) ==> 1 <= m <= n <= u32::MAX,
{
    if starts_with(s, "slice:"@) {
        let rest = s.skip(6);
        let k = first_index(rest, '/');
        if k >= 0 {
            let b = rest.skip(k + 1);
            crate::text::lemma_digits_value_bound(b, 0, u32::MAX as int);
            if b.len() > 0 {
                crate::text::lemma_digits_value_bound(b.drop_first(), 0, u32::MAX as int);
            }
            let a = rest.take(k);
            crate::text::lemma_digits_value_bound(a, 0, u32::MAX as int);
            if a.len() > 0 {
                crate::text::lemma_digits_value_bound(a.drop_first(), 0, u32::MAX as int);
            }
        }
    }
}

} // verus!
