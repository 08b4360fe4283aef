//! Challenge service: mint 32-byte nonces and verify that an incoming
//! request carries one previously minted, unused.
//!
//! Challenges are single-use: a consumption that succeeds also removes the
//! value, so presenting the same challenge twice is denied.

use crate::error::Status;
use vstd::prelude::*;
use vstd::string::StringExecFns;

verus! {

/// No challenge is held twice.
pub open spec fn items_unique(s: Seq<Vec<u8>>) -> bool {
    forall|i: int, j: int| 0 <= i < j < s.len() ==> s[i]@ != s[j]@
}

/// The set of challenge values the item list holds.
pub open spec fn set_of(s: Seq<Vec<u8>>) -> Set<Seq<u8>>
    decreases s.len(),
{
    if s.len() == 0 {
        Set::empty()
    } else {
        set_of(s.drop_last()).insert(s.last()@)
    }
}

/// A value is in the set exactly when some item holds it.
pub proof fn lemma_set_of_contains(s: Seq<Vec<u8>>, c: Seq<u8>)
    ensures
        set_of(s).contains(c) <==> exists|j: int| 0 <= j < s.len() && #[trigger] s[j]@ == c,
    decreases s.len(),
{
    if s.len() == 0 {
    } else {
        lemma_set_of_contains(s.drop_last(), c);
        if s.last()@ == c {
            assert(s[s.len() - 1]@ == c);
        } else {
            if set_of(s).contains(c) {
                let j = choose|j: int|
                    0 <= j < s.drop_last().len() && #[trigger] s.drop_last()[j]@ == c;
                assert(s[j]@ == c);
            }
            if exists|j: int| 0 <= j < s.len() && #[trigger] s[j]@ == c {
                let j = choose|j: int| 0 <= j < s.len() && #[trigger] s[j]@ == c;
                assert(s.drop_last()[j]@ == c);
            }
        }
    }
}

/// With unique items, removing the item at `j` removes its value from the
/// set.
pub proof fn lemma_set_of_remove(s: Seq<Vec<u8>>, j: int)
    requires
        items_unique(s),
        0 <= j < s.len(),
    ensures
        set_of(s.remove(j)) == set_of(s).remove(s[j]@),
    decreases s.len(),
{
    if j == s.len() - 1 {
        assert(s.remove(j) =~= s.drop_last());
        lemma_set_of_contains(s.drop_last(), s[j]@);
        assert(!set_of(s.drop_last()).contains(s[j]@));
        assert(set_of(s.drop_last()).insert(s.last()@).remove(s[j]@) =~= set_of(s.drop_last()));
    } else {
        assert(s.remove(j).drop_last() =~= s.drop_last().remove(j));
        assert(s.remove(j).last() == s.last());
        assert(items_unique(s.drop_last()));
        assert(s.drop_last()[j] == s[j]);
        lemma_set_of_remove(s.drop_last(), j);
        assert(s[j]@ != s.last()@);
        assert(set_of(s.drop_last()).remove(s[j]@).insert(s.last()@) =~= set_of(
            s.drop_last(),
        ).insert(s.last()@).remove(s[j]@));
    }
}

/// The set of minted, not yet consumed challenges.
pub struct ChallengeSet {
    items: Vec<Vec<u8>>,
}

impl View for ChallengeSet {
    type V = Set<Seq<u8>>;

    closed spec fn view(&self) -> Set<Seq<u8>> {
        set_of(self.items@)
    }
}

/// Whether two byte vectors hold the same bytes.
pub fn bytes_eq(a: &Vec<u8>, b: &Vec<u8>) -> (r: bool)
    ensures
        r == (a@ == b@),
{
    if a.len() != b.len() {
        return false;
    }
    let mut i: usize = 0;
    while i < a.len()
        invariant
            a@.len() == b@.len(),
            i <= a@.len(),
            forall|j: int| 0 <= j < i ==> a@[j] == b@[j],
        decreases a.len() - i,
    {
        if a[i] != b[i] {
            return false;
        }
        i = i + 1;
    }
    assert(a@ =~= b@);
    true
}

impl ChallengeSet {
    /// The set never holds a challenge twice.
    pub closed spec fn wf(&self) -> bool {
        items_unique(self.items@)
    }

    /// An empty challenge set.
    pub fn new() -> (r: Self)
        ensures
            r.wf(),
            r@ == Set::<Seq<u8>>::empty(),
    {
        ChallengeSet { items: Vec::new() }
    }

    /// Whether a challenge value is currently outstanding.
    pub fn contains(&self, c: &Vec<u8>) -> (r: bool)
        requires
            self.wf(),
        ensures
            r == self@.contains(c@),
    {
        let mut i: usize = 0;
        while i < self.items.len()
            invariant
                self.wf(),
                i <= self.items@.len(),
                forall|j: int| 0 <= j < i ==> #[trigger] self.items@[j]@ != c@,
            decreases self.items.len() - i,
        {
            if bytes_eq(&self.items[i], c) {
                proof {
                    lemma_set_of_contains(self.items@, c@);
                }
                return true;
            }
            i = i + 1;
        }
        proof {
            lemma_set_of_contains(self.items@, c@);
        }
        false
    }

    /// Mint a fresh 32-byte challenge: draw from the CSPRNG, redraw on the
    /// vanishingly unlikely collision (a bounded number of times; exhaustion
    /// reports an internal error and changes nothing), insert, and hand the
    /// value out.
    pub fn new_challenge(&mut self) -> (r: Result<Vec<u8>, Status>)
        requires
            old(self).wf(),
        ensures
            final(self).wf(),
            match r {
                Ok(c) => c@.len() == 32 && !old(self)@.contains(c@) && final(self)@ == old(
                    self,
                )@.insert(c@),
                Err(e) => final(self)@ == old(self)@ && e is Internal,
            },
    {
        let mut tries: usize = 16;
        while tries > 0
            invariant
                self == old(self),
                self.wf(),
            decreases tries,
        {
            let c = match random_bytes32() {
                Some(c) => c,
                None => {
                    return Err(
                        Status::Internal(String::from_str("Could not generate random value")),
                    );
                },
            };
            if !self.contains(&c) {
                let ghost items0 = self.items@;
                let value = crate::frame::clone_bytes(&c);
                self.items.push(c);
                proof {
                    assert(self.items@.drop_last() =~= items0);
                    lemma_set_of_contains(items0, self.items@.last()@);
                    assert forall|i: int, j: int|
                        0 <= i < j < self.items@.len() implies self.items@[i]@
                        != self.items@[j]@ by {
                        if j < self.items@.len() - 1 {
                            assert(items0[i]@ != items0[j]@);
                        } else {
                            assert(self.items@[i] == items0[i]);
                        }
                    }
                }
                return Ok(value);
            }
            tries = tries - 1;
        }
        Err(Status::Internal(String::from_str("Could not mint a fresh challenge")))
    }

    /// Consume a challenge: remove it from the set; a value never minted, or
    /// minted and already used, is denied.
    pub fn consume(&mut self, c: &Vec<u8>) -> (r: Result<(), Status>)
        requires
            old(self).wf(),
        ensures
            final(self).wf(),
            old(self)@.contains(c@) ==> r is Ok && final(self)@ == old(self)@.remove(c@),
            !old(self)@.contains(c@) ==> final(self)@ == old(self)@ && (r matches Err(e)
                && (e matches Status::PermissionDenied(m) && m@ == "Invalid or reused challenge"@)),
    {
        let mut i: usize = 0;
        while i < self.items.len()
            invariant
                self == old(self),
                self.wf(),
                i <= self.items@.len(),
                forall|j: int| 0 <= j < i ==> #[trigger] self.items@[j]@ != c@,
            decreases self.items.len() - i,
        {
            if bytes_eq(&self.items[i], c) {
                proof {
                    lemma_set_of_contains(self.items@, c@);
                    lemma_set_of_remove(self.items@, i as int);
                    assert forall|a: int, b: int|
                        0 <= a < b < self.items@.remove(i as int).len() implies self.items@.remove(
                        i as int,
                    )[a]@ != self.items@.remove(i as int)[b]@ by {
                        let s = self.items@;
                        let a0: int = if a < i { a } else { a + 1 };
                        let b0: int = if b < i { b } else { b + 1 };
                        assert(s.remove(i as int)[a] == s[a0]);
                        assert(s.remove(i as int)[b] == s[b0]);
                    }
                }
                self.items.remove(i);
                return Ok(());
            }
            i = i + 1;
        }
        proof {
            lemma_set_of_contains(self.items@, c@);
        }
        Err(Status::PermissionDenied(String::from_str("Invalid or reused challenge")))
    }
}

/// One challenge consumed from a set is no longer in it: the verification
/// that succeeds also removes, so verifying the same challenge a second time
/// must be denied.
pub proof fn lemma_challenge_single_use(outstanding: Set<Seq<u8>>, c: Seq<u8>)
    requires
        outstanding.contains(c),
    ensures
        !outstanding.remove(c).contains(c),
{
}

/// Relies on `ring::rand::SystemRandom` and `ring::rand::generate`: 32 bytes
/// drawn from the system's cryptographically secure RNG, or nothing when the
/// OS RNG reports failure. The draw is random, so nothing relates two calls;
/// only the length is promised.
#[verifier::external_body]
fn random_bytes32() -> (r: Option<Vec<u8>>)
    ensures
        r matches Some(b) ==> b@.len() == 32,
{
    let rng = ring::rand::SystemRandom::new();
    match ring::rand::generate::<[u8; 32]>(&rng) {
        Ok(value) => Some(value.expose().to_vec()),
        Err(_) => None,
    }
}

} // verus!
