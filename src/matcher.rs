use vstd::prelude::*;

use crate::digest::{digest_of, digest_width};
use crate::hash_type::HashType;

verus! {

/// `digest` agrees with `target` on every bit that `mask` selects.
pub open spec fn masked_match(digest: Seq<u8>, target: Seq<u8>, mask: Seq<u8>) -> bool {
    &&& digest.len() == target.len()
    &&& digest.len() == mask.len()
    &&& forall|i: int| 0 <= i < digest.len() ==> #[trigger] digest[i] & mask[i] == target[i] & mask[i]
}

/// The alphabets of a character map, as byte sequences.
pub open spec fn alphabets(map: Seq<Vec<u8>>) -> Seq<Seq<u8>> {
    map.map_values(|v: Vec<u8>| v@)
}

/// `c` is a plaintext of the search space: one byte per position, each taken
/// from that position's alphabet.
pub open spec fn in_domain(map: Seq<Seq<u8>>, c: Seq<u8>) -> bool {
    &&& c.len() == map.len()
    &&& forall|i: int| 0 <= i < c.len() ==> #[trigger] map[i].contains(c[i])
}

/// The number of plaintext suffixes from position `i` to the end of the map.
pub open spec fn suffix_combinations(map: Seq<Seq<u8>>, i: int) -> nat
    decreases map.len() - i,
{
    if 0 <= i < map.len() {
        map[i].len() * suffix_combinations(map, i + 1)
    } else {
        1
    }
}

/// `n`, clamped to the largest `usize`.
pub open spec fn saturate(n: nat) -> nat {
    if n > usize::MAX {
        usize::MAX as nat
    } else {
        n
    }
}

/// What a search is asked to find.
pub struct PowSearchParameters {
    pub hash_type: HashType,
    pub target_hash: Vec<u8>,
    pub target_hash_mask: Vec<u8>,
    pub plaintext_character_map: Vec<Vec<u8>>,
}

impl PowSearchParameters {
    /// Target and mask both have the algorithm's digest width.
    pub open spec fn wf(&self) -> bool {
        &&& self.target_hash@.len() == digest_width(self.hash_type)
        &&& self.target_hash_mask@.len() == digest_width(self.hash_type)
    }

    pub open spec fn map(&self) -> Seq<Seq<u8>> {
        alphabets(self.plaintext_character_map@)
    }

    /// `c` lies in the search space and its digest matches the target under the mask.
    pub open spec fn is_solution(&self, c: Seq<u8>) -> bool {
        &&& in_domain(self.map(), c)
        &&& masked_match(digest_of(self.hash_type, c), self.target_hash@, self.target_hash_mask@)
    }

    /// A copy that holds the same values.
    pub fn duplicate(&self) -> (r: PowSearchParameters)
        ensures
            r.hash_type == self.hash_type,
            r.target_hash@ == self.target_hash@,
            r.target_hash_mask@ == self.target_hash_mask@,
            r.map() == self.map(),
            r.plaintext_character_map@.len() == self.plaintext_character_map@.len(),
    {
        let mut map: Vec<Vec<u8>> = Vec::new();
        let mut i: usize = 0;
        while i < self.plaintext_character_map.len()
            invariant
                0 <= i <= self.plaintext_character_map@.len(),
                map@.len() == i,
                forall|k: int| 0 <= k < i ==> #[trigger] map@[k]@ == self.plaintext_character_map@[k]@,
            decreases self.plaintext_character_map@.len() - i,
        {
            map.push(copy_bytes(self.plaintext_character_map[i].as_slice()));
            i = i + 1;
        }
        assert(alphabets(map@) =~= self.map());
        PowSearchParameters {
            hash_type: self.hash_type,
            target_hash: copy_bytes(self.target_hash.as_slice()),
            target_hash_mask: copy_bytes(self.target_hash_mask.as_slice()),
            plaintext_character_map: map,
        }
    }

    /// Whether `hash` agrees with the target on every bit the mask selects.
    pub fn check_hash(&self, hash: &[u8]) -> (r: bool)
        requires
            self.wf(),
            hash@.len() == digest_width(self.hash_type),
        ensures
            r == masked_match(hash@, self.target_hash@, self.target_hash_mask@),
    {
        let target_hash = self.target_hash.as_slice();
        let target_hash_mask = self.target_hash_mask.as_slice();
        let mut i: usize = 0;
        while i < hash.len()
            invariant
                0 <= i <= hash@.len(),
                hash@.len() == target_hash@.len(),
                hash@.len() == target_hash_mask@.len(),
                target_hash@ == self.target_hash@,
                target_hash_mask@ == self.target_hash_mask@,
                forall|k: int|
                    0 <= k < i ==> #[trigger] hash@[k] & target_hash_mask@[k] == target_hash@[k]
                        & target_hash_mask@[k],
            decreases hash@.len() - i,
        {
            if (hash[i] & target_hash_mask[i]) != (target_hash[i] & target_hash_mask[i]) {
                return false;
            }
            i = i + 1;
        }
        true
    }

    /// Whether `c` lies in the search space.
    pub fn is_candidate(&self, c: &[u8]) -> (r: bool)
        ensures
            r == in_domain(self.map(), c@),
    {
        let n = self.plaintext_character_map.len();
        if c.len() != n {
            return false;
        }
        let mut i: usize = 0;
        while i < n
            invariant
                n == self.plaintext_character_map@.len(),
                c@.len() == n,
                0 <= i <= n,
                forall|k: int| 0 <= k < i ==> #[trigger] self.map()[k].contains(c@[k]),
            decreases n - i,
        {
            if !alphabet_contains(&self.plaintext_character_map[i], c[i]) {
                assert(!self.map()[i as int].contains(c@[i as int]));
                return false;
            }
            i = i + 1;
        }
        true
    }

    /// Whether `c` lies in the search space and its digest matches the target.
    pub fn is_solution_exec(&self, c: &[u8]) -> (r: bool)
        requires
            self.wf(),
        ensures
            r == self.is_solution(c@),
    {
        if !self.is_candidate(c) {
            return false;
        }
        let digest = self.hash_type.hash(c);
        self.check_hash(digest.as_slice())
    }
}

pub(crate) fn copy_bytes(v: &[u8]) -> (r: Vec<u8>)
    ensures
        r@ == v@,
{
    let mut r: Vec<u8> = Vec::new();
    let mut i: usize = 0;
    while i < v.len()
        invariant
            0 <= i <= v@.len(),
            r@ == v@.subrange(0, i as int),
        decreases v@.len() - i,
    {
        r.push(v[i]);
        i = i + 1;
    }
    assert(r@ =~= v@);
    r
}

pub(crate) fn alphabet_contains(alphabet: &Vec<u8>, b: u8) -> (r: bool)
    ensures
        r == alphabet@.contains(b),
{
    let mut i: usize = 0;
    while i < alphabet.len()
        invariant
            0 <= i <= alphabet@.len(),
            forall|k: int| 0 <= k < i ==> alphabet@[k] != b,
        decreases alphabet@.len() - i,
    {
        if alphabet[i] == b {
            return true;
        }
        i = i + 1;
    }
    false
}

proof fn lemma_saturate_step(s: nat, b: nat)
    ensures
        saturate(b * s) == saturate(b * saturate(s)),
{
    if s > usize::MAX {
        if b == 0 {
        } else if b == 1 {
        } else {
            assert(b * saturate(s) >= 2 * (usize::MAX as nat)) by (nonlinear_arith)
                requires
                    b >= 2,
                    saturate(s) == usize::MAX as nat,
            ;
            assert(b * s >= 2 * s) by (nonlinear_arith)
                requires
                    b >= 2,
            ;
        }
    }
}

/// For each position, the number of plaintext suffixes that start there,
/// clamped to the largest `usize`.
pub fn get_message_count(plaintext_character_map: &[Vec<u8>]) -> (r: Vec<usize>)
    ensures
        r@.len() == plaintext_character_map@.len(),
        forall|i: int|
            0 <= i < r@.len() ==> #[trigger] r@[i] == saturate(
                suffix_combinations(alphabets(plaintext_character_map@), i),
            ),
{
    let ghost map = alphabets(plaintext_character_map@);
    let n = plaintext_character_map.len();
    let mut message_count: Vec<usize> = Vec::new();
    let mut j: usize = 0;
    while j < n
        invariant
            0 <= j <= n,
            message_count@.len() == j,
        decreases n - j,
    {
        message_count.push(0);
        j = j + 1;
    }
    let mut count: usize = 1;
    let mut i: usize = n;
    while i > 0
        invariant
            n == plaintext_character_map@.len(),
            map == alphabets(plaintext_character_map@),
            0 <= i <= n,
            message_count@.len() == n,
            count == saturate(suffix_combinations(map, i as int)),
            forall|k: int|
                i <= k < n ==> #[trigger] message_count@[k] == saturate(
                    suffix_combinations(map, k),
                ),
        decreases i,
    {
        i = i - 1;
        let size = plaintext_character_map[i].len();
        proof {
            assert(map[i as int].len() == size);
            lemma_saturate_step(suffix_combinations(map, i + 1), size as nat);
            assert(suffix_combinations(map, i as int) == size * suffix_combinations(map, i + 1));
        }
        let ghost prev = count as nat;
        count = match count.checked_mul(size) {
            Some(p) => p,
            None => usize::MAX,
        };
        assert(prev * size == size * prev) by (nonlinear_arith);
        message_count.set(i, count);
    }
    message_count
}

} // verus!
