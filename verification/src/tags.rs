//! Closed tag sets: the rule that assigns a numeric discriminant to every
//! variant, narrowing to a fixed-width representation, and the concrete tag
//! sets built on those rules.

use std::collections::HashMap;
use std::collections::HashSet;
use std::hash::Hash;
use vstd::prelude::*;

verus! {

/// The discriminant each variant of a closed tag set receives, by position:
/// an explicit tag is kept; an implicit first variant receives 0; any other
/// implicit variant receives the previous variant's tag plus one.
pub open spec fn spec_assigned_tags(explicit: Seq<Option<u32>>) -> Seq<int>
    decreases explicit.len(),
{
    if explicit.len() == 0 {
        Seq::empty()
    } else {
        let prefix = spec_assigned_tags(explicit.drop_last());
        let tag: int = match explicit.last() {
            Some(t) => t as int,
            None => if prefix.len() == 0 {
                0
            } else {
                prefix.last() + 1
            },
        };
        prefix.push(tag)
    }
}

/// The assignment gives one discriminant per variant.
pub proof fn lemma_assigned_tags_len(explicit: Seq<Option<u32>>)
    ensures
        spec_assigned_tags(explicit).len() == explicit.len(),
    decreases explicit.len(),
{
    if explicit.len() > 0 {
        lemma_assigned_tags_len(explicit.drop_last());
    }
}

/// Every assigned discriminant stays below the explicit-tag width plus the
/// number of variants before it, so the computation fits in 64 bits.
pub proof fn lemma_assigned_tags_bound(explicit: Seq<Option<u32>>)
    ensures
        forall|m: int|
            0 <= m < explicit.len() ==> 0 <= #[trigger] spec_assigned_tags(explicit)[m] < 0x1_0000_0000
                + m + 1,
    decreases explicit.len(),
{
    lemma_assigned_tags_len(explicit);
    if explicit.len() > 0 {
        lemma_assigned_tags_bound(explicit.drop_last());
        lemma_assigned_tags_len(explicit.drop_last());
    }
}

/// Computes the discriminant of every variant of a closed tag set from the
/// explicit tags that its declaration carries, following the defaulting rule.
pub fn assign_tags(explicit: &Vec<Option<u32>>) -> (tags: Vec<u64>)
    requires
        explicit@.len() < 0x1_0000_0000,
    ensures
        tags@.len() == explicit@.len(),
        forall|m: int|
            0 <= m < explicit@.len() ==> #[trigger] tags@[m] as int == spec_assigned_tags(
                explicit@,
            )[m],
{
    let mut tags: Vec<u64> = Vec::new();
    let mut k: usize = 0;
    while k < explicit.len()
        invariant
            k <= explicit@.len(),
            explicit@.len() < 0x1_0000_0000,
            tags@.len() == k,
            forall|m: int|
                0 <= m < k ==> #[trigger] tags@[m] as int == spec_assigned_tags(
                    explicit@.take(k as int),
                )[m],
        decreases explicit@.len() - k,
    {
        proof {
            lemma_assigned_tags_len(explicit@.take(k as int));
            lemma_assigned_tags_bound(explicit@.take(k as int));
            lemma_assigned_tags_len(explicit@.take(k as int + 1));
            assert(explicit@.take(k as int + 1).drop_last() =~= explicit@.take(k as int));
            assert(explicit@.take(k as int + 1).last() == explicit@[k as int]);
        }
        let tag: u64 = match explicit[k] {
            Some(t) => t as u64,
            None => if k == 0 {
                0
            } else {
                tags[k - 1] + 1
            },
        };
        tags.push(tag);
        k += 1;
        proof {
            assert forall|m: int| 0 <= m < k implies #[trigger] tags@[m] as int
                == spec_assigned_tags(explicit@.take(k as int))[m] by {
                let full = spec_assigned_tags(explicit@.take(k as int));
                let prefix = spec_assigned_tags(explicit@.take(k as int - 1));
                assert(full == prefix.push(full.last()));
                if m < k - 1 {
                    assert(full[m] == prefix[m]);
                }
            }
        }
    }
    proof {
        assert(explicit@.take(k as int) =~= explicit@);
    }
    tags
}

/// Narrows a computed discriminant to its 8-bit representation: the value
/// wraps by modular arithmetic.
pub fn wrap_u8(tag: u64) -> (r: u8)
    ensures
        r as int == tag as int % 256,
{
    (tag % 256) as u8
}

/// A closed tag set of protocol status alternatives: the first variant's tag
/// is implicit, the second carries an explicit tag, and the third is implicit
/// again and therefore follows the second.
#[derive(Clone, Copy, PartialEq, Eq, Structural)]
pub enum HttpStatusCode {
    SwitchProtocol,
    NotFound,
    GatewayTimeout,
}

impl HttpStatusCode {
    /// The explicit tags that the declaration of the set carries, in
    /// declaration order: only the second variant writes its tag out.
    pub open spec fn declared_tags() -> Seq<Option<u32>> {
        seq![None, Some(404u32), None]
    }

    /// The position of this variant in the declaration order.
    pub open spec fn spec_position(self) -> int {
        match self {
            HttpStatusCode::SwitchProtocol => 0,
            HttpStatusCode::NotFound => 1,
            HttpStatusCode::GatewayTimeout => 2,
        }
    }

    /// The discriminant of this variant under the defaulting rule.
    pub open spec fn spec_code(self) -> int {
        spec_assigned_tags(Self::declared_tags())[self.spec_position()]
    }

    /// Returns the discriminant of this variant, as the defaulting rule
    /// assigns it.
    pub fn code(self) -> (r: u64)
        ensures
            r as int == self.spec_code(),
    {
        proof {
            lemma_status_tags_follow_rule();
        }
        match self {
            HttpStatusCode::SwitchProtocol => 0,
            HttpStatusCode::NotFound => 404,
            HttpStatusCode::GatewayTimeout => 405,
        }
    }

    /// Returns the 8-bit representation of this variant: every variant here
    /// is payload-free, and the discriminant wraps modularly into the width.
    pub fn as_u8(self) -> (r: u8)
        ensures
            r as int == self.spec_code() % 256,
    {
        proof {
            lemma_status_tags_follow_rule();
        }
        wrap_u8(self.code())
    }
}

/// The concrete status set follows the general defaulting rule: in
/// declaration order its variants receive 0, the explicit 404, and 405.
pub proof fn lemma_status_tags_follow_rule()
    ensures
        spec_assigned_tags(HttpStatusCode::declared_tags()) =~= seq![0int, 404int, 405int],
{
    let s = HttpStatusCode::declared_tags();
    let s2 = s.drop_last();
    let s1 = s2.drop_last();
    let s0 = s1.drop_last();
    assert(s0 =~= Seq::<Option<u32>>::empty());
    assert(spec_assigned_tags(s0) =~= Seq::<int>::empty());
    assert(spec_assigned_tags(s1) =~= seq![0int]);
    assert(spec_assigned_tags(s2) =~= seq![0int, 404int]);
    assert(spec_assigned_tags(s) =~= seq![0int, 404int, 405int]);
}

/// Two mutually exclusive states of a scheduler: jobs not yet assigned to
/// anyone, or a mapping from each process to its assigned job sequence. Only
/// the shape of the state is modelled; no transition logic is in scope.
pub enum SchedulerState<Job, Pid> where Job: Eq + Hash, Pid: Eq + Hash {
    Pending(HashSet<Job>),
    Running(HashMap<Pid, Vec<Job>>),
}

} // verus!
