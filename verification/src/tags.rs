//! Secret tags and their admission: the set of tags that are valid in a
//! period, the rule by which a list of submitted tags is accepted, and the
//! layout of a tagged payload.

use crate::bytes::{append_array, append_slice, chunk};
use crate::error::Error;
use crate::MAX_ENTITLEMENT;
use std::collections::HashSet;
use vstd::prelude::*;

verus! {

broadcast use vstd::std_specs::hash::group_hash_axioms;

/// A secret tag: sixteen random bytes that stand for one claim slot of a
/// recipient in one period.
pub type SecretTag = [u8; 16];

/// The number that bytes stand for, most significant byte first.
pub open spec fn be_value(bytes: Seq<u8>) -> nat
    decreases bytes.len(),
{
    if bytes.len() == 0 {
        0
    } else {
        be_value(bytes.drop_last()) * 256 + bytes.last() as nat
    }
}

/// The number of values that `n` bytes can stand for.
pub open spec fn span(n: nat) -> nat
    decreases n,
{
    if n == 0 {
        1
    } else {
        256 * span((n - 1) as nat)
    }
}

/// The number that bytes stand for is below the span of their length.
pub proof fn lemma_be_value_bound(bytes: Seq<u8>)
    ensures
        be_value(bytes) < span(bytes.len()),
    decreases bytes.len(),
{
    if bytes.len() > 0 {
        lemma_be_value_bound(bytes.drop_last());
    }
}

/// Bytes of one length that stand for the same number are the same bytes.
pub proof fn lemma_be_value_injective(a: Seq<u8>, b: Seq<u8>)
    requires
        a.len() == b.len(),
        be_value(a) == be_value(b),
    ensures
        a == b,
    decreases a.len(),
{
    if a.len() > 0 {
        assert(a.last() == b.last());
        assert(be_value(a.drop_last()) == be_value(b.drop_last()));
        lemma_be_value_injective(a.drop_last(), b.drop_last());
        assert(a =~= a.drop_last().push(a.last()));
        assert(b =~= b.drop_last().push(b.last()));
    } else {
        assert(a =~= b);
    }
}

/// Sixteen bytes stand for a number that fits 128 bits.
pub proof fn lemma_tag_value_fits(tag: Seq<u8>)
    requires
        tag.len() == 16,
    ensures
        be_value(tag) <= u128::MAX,
{
    lemma_be_value_bound(tag);
    assert(span(16) == 0x1_0000_0000_0000_0000_0000_0000_0000_0000nat) by {
        reveal_with_fuel(span, 17);
    }
}

/// The number that a tag stands for.
fn tag_key(tag: &SecretTag) -> (key: u128)
    ensures
        key == be_value(tag@),
{
    let mut acc: u128 = 0;
    let mut i: usize = 0;
    assert(tag@.take(0) =~= Seq::<u8>::empty());
    while i < 16
        invariant
            i <= 16,
            tag@.len() == 16,
            acc == be_value(tag@.take(i as int)),
        decreases 16 - i,
    {
        proof {
            lemma_be_value_bound(tag@.take(i as int));
            lemma_span_grows(i as nat, 15);
            assert(span(16) == 256 * span(15));
            assert(span(16) == 0x1_0000_0000_0000_0000_0000_0000_0000_0000nat) by {
                reveal_with_fuel(span, 17);
            }
            assert(tag@.take(i + 1).drop_last() =~= tag@.take(i as int));
        }
        acc = acc * 256 + tag[i] as u128;
        i = i + 1;
    }
    assert(tag@.take(16) =~= tag@);
    acc
}

/// The span grows with the number of bytes.
pub proof fn lemma_span_grows(a: nat, b: nat)
    requires
        a <= b,
    ensures
        span(a) <= span(b),
    decreases b,
{
    if a < b {
        lemma_span_grows(a, (b - 1) as nat);
    }
}

/// The tags that are valid in a period.
pub struct TagSet {
    keys: HashSet<u128>,
}

impl View for TagSet {
    type V = Set<Seq<u8>>;

    closed spec fn view(&self) -> Set<Seq<u8>> {
        Set::new(|tag: Seq<u8>| tag.len() == 16 && self.keys@.contains(be_value(tag) as u128))
    }
}

impl TagSet {
    /// The empty set.
    pub fn new() -> (r: TagSet)
        ensures
            r@ == Set::<Seq<u8>>::empty(),
    {
        let r = TagSet { keys: HashSet::new() };
        assert(r@ =~= Set::<Seq<u8>>::empty());
        r
    }

    /// Adds a tag, and says whether it was new to the set.
    pub fn insert(&mut self, tag: SecretTag) -> (fresh: bool)
        ensures
            final(self)@ == old(self)@.insert(tag@),
            fresh == !old(self)@.contains(tag@),
    {
        let key = tag_key(&tag);
        let fresh = self.keys.insert(key);
        proof {
            lemma_tag_value_fits(tag@);
            assert forall|t: Seq<u8>| self@.contains(t) <==> old(self)@.insert(tag@).contains(
                t,
            ) by {
                if t.len() == 16 {
                    lemma_tag_value_fits(t);
                    if be_value(t) == be_value(tag@) {
                        lemma_be_value_injective(t, tag@);
                    }
                }
            }
            assert(self@ =~= old(self)@.insert(tag@));
        }
        fresh
    }

    /// Empties the set, as is done where a new period begins.
    pub fn clear(&mut self)
        ensures
            final(self)@ == Set::<Seq<u8>>::empty(),
    {
        self.keys.clear();
        assert(self@ =~= Set::<Seq<u8>>::empty());
    }

    /// Whether the tag is in the set.
    pub fn contains(&self, tag: &SecretTag) -> (r: bool)
        ensures
            r == self@.contains(tag@),
    {
        let key = tag_key(tag);
        proof {
            lemma_tag_value_fits(tag@);
        }
        self.keys.contains(&key)
    }
}

/// The byte strings of a list of tags, in order.
pub open spec fn tag_views(tags: Seq<SecretTag>) -> Seq<Seq<u8>> {
    Seq::new(tags.len(), |i: int| tags[i]@)
}

/// Why a list of submitted tags is refused, if it is. The tags are held in
/// order against the valid set and against the tags before them: the first
/// tag that is not valid, or that was seen before, decides.
pub open spec fn admission(tags: Seq<Seq<u8>>, valid: Set<Seq<u8>>) -> Option<Error>
    decreases tags.len(),
{
    if tags.len() == 0 {
        None
    } else {
        match admission(tags.drop_last(), valid) {
            Some(e) => Some(e),
            None => if !valid.contains(tags.last()) {
                Some(Error::InvalidSecretTag)
            } else if tags.drop_last().contains(tags.last()) {
                Some(Error::DuplicateSecretTag)
            } else {
                None
            },
        }
    }
}

/// A list is accepted exactly where every tag is valid and no tag occurs
/// twice.
pub proof fn lemma_admission_accepts(tags: Seq<Seq<u8>>, valid: Set<Seq<u8>>)
    ensures
        admission(tags, valid).is_none() <==> ((forall|i: int|
            0 <= i < tags.len() ==> valid.contains(#[trigger] tags[i])) && tags.no_duplicates()),
    decreases tags.len(),
{
    if tags.len() > 0 {
        let front = tags.drop_last();
        lemma_admission_accepts(front, valid);
        if admission(tags, valid).is_none() {
            assert forall|i: int| 0 <= i < tags.len() implies valid.contains(
                #[trigger] tags[i],
            ) by {
                if i < front.len() {
                    assert(tags[i] == front[i]);
                }
            }
            assert forall|i: int, j: int|
                0 <= i < tags.len() && 0 <= j < tags.len() && i != j implies tags[i]
                != tags[j] by {
                if i < front.len() && j < front.len() {
                    assert(front[i] != front[j]);
                } else if i < front.len() {
                    assert(front[i] == tags[i]);
                } else {
                    assert(front[j] == tags[j]);
                }
            }
        }
        if (forall|i: int| 0 <= i < tags.len() ==> valid.contains(#[trigger] tags[i]))
            && tags.no_duplicates() {
            assert forall|i: int| 0 <= i < front.len() implies valid.contains(
                #[trigger] front[i],
            ) by {
                assert(front[i] == tags[i]);
            }
            assert forall|i: int, j: int|
                0 <= i < front.len() && 0 <= j < front.len() && i != j implies front[i]
                != front[j] by {
                assert(front[i] == tags[i] && front[j] == tags[j]);
            }
            assert(valid.contains(tags[tags.len() - 1]));
            if front.contains(tags.last()) {
                let k = choose|k: int| 0 <= k < front.len() && front[k] == tags.last();
                assert(tags[k] == tags[tags.len() - 1]);
            }
        }
    }
}

/// A list is refused only for a tag that is not valid or for a repeated tag.
pub proof fn lemma_admission_errors(tags: Seq<Seq<u8>>, valid: Set<Seq<u8>>)
    ensures
        admission(tags, valid).is_none() || admission(tags, valid) == Some(
            Error::InvalidSecretTag,
        ) || admission(tags, valid) == Some(Error::DuplicateSecretTag),
    decreases tags.len(),
{
    if tags.len() > 0 {
        lemma_admission_errors(tags.drop_last(), valid);
    }
}

/// A refusal that a front part of the list has earned stands for the whole
/// list.
pub proof fn lemma_refusal_stands(tags: Seq<Seq<u8>>, valid: Set<Seq<u8>>, k: nat)
    requires
        k <= tags.len(),
        admission(tags.take(k as int), valid).is_some(),
    ensures
        admission(tags, valid) == admission(tags.take(k as int), valid),
    decreases tags.len() - k,
{
    if k < tags.len() {
        assert(tags.take(k + 1 as int).drop_last() =~= tags.take(k as int));
        lemma_refusal_stands(tags, valid, k + 1);
    } else {
        assert(tags.take(k as int) =~= tags);
    }
}

/// Holds the submitted tags, in order, against the valid set and against
/// each other.
pub fn admit_tags(tags: &Vec<SecretTag>, valid: &TagSet) -> (r: Result<(), Error>)
    ensures
        match r {
            Ok(()) => admission(tag_views(tags@), valid@).is_none(),
            Err(e) => admission(tag_views(tags@), valid@) == Some(e),
        },
{
    let ghost all = tag_views(tags@);
    let n: usize = tags.len();
    let mut seen = TagSet::new();
    let mut i: usize = 0;
    assert(all.take(0) =~= Seq::<Seq<u8>>::empty());
    while i < n
        invariant
            i <= n,
            n == tags@.len(),
            all == tag_views(tags@),
            admission(all.take(i as int), valid@).is_none(),
            forall|t: Seq<u8>| seen@.contains(t) <==> all.take(i as int).contains(t),
        decreases n - i,
    {
        let tag = tags[i];
        assert(all.take(i + 1).drop_last() =~= all.take(i as int));
        assert(all.take(i + 1).last() == tag@);
        if !valid.contains(&tag) {
            proof {
                lemma_refusal_stands(all, valid@, (i + 1) as nat);
            }
            return Err(Error::InvalidSecretTag);
        }
        if seen.contains(&tag) {
            proof {
                lemma_refusal_stands(all, valid@, (i + 1) as nat);
            }
            return Err(Error::DuplicateSecretTag);
        }
        seen.insert(tag);
        proof {
            let prefix = all.take(i as int);
            let next = all.take(i + 1);
            assert forall|t: Seq<u8>| seen@.contains(t) <==> next.contains(t) by {
                if next.contains(t) {
                    let k = choose|k: int| 0 <= k < next.len() && next[k] == t;
                    if k < i {
                        assert(prefix[k] == t);
                    }
                }
                if prefix.contains(t) {
                    let k = choose|k: int| 0 <= k < prefix.len() && prefix[k] == t;
                    assert(next[k] == t);
                }
                if t == tag@ {
                    assert(next[i as int] == t);
                }
            }
        }
        i = i + 1;
    }
    assert(all.take(n as int) =~= all);
    Ok(())
}

/// Whether every recipient submitted exactly `MAX_ENTITLEMENT` tags.
pub open spec fn counts_exact(counts: Seq<usize>) -> bool {
    forall|i: int| 0 <= i < counts.len() ==> counts[i] == MAX_ENTITLEMENT
}

/// Holds the number of tags of each recipient against `MAX_ENTITLEMENT`.
pub fn check_tag_counts(counts: &Vec<usize>) -> (r: Result<(), Error>)
    ensures
        match r {
            Ok(()) => counts_exact(counts@),
            Err(e) => e == Error::WrongTagCount && !counts_exact(counts@),
        },
{
    let n: usize = counts.len();
    let mut i: usize = 0;
    while i < n
        invariant
            i <= n,
            n == counts@.len(),
            forall|k: int| 0 <= k < i ==> counts@[k] == MAX_ENTITLEMENT,
        decreases n - i,
    {
        if counts[i] != MAX_ENTITLEMENT {
            return Err(Error::WrongTagCount);
        }
        i = i + 1;
    }
    Ok(())
}

/// The tagged payload that a recipient sends to the auditor: the tag, then
/// the envelope that is meant for the helper.
pub fn join_tagged(tag: &SecretTag, envelope: &[u8]) -> (r: Vec<u8>)
    ensures
        r@ == tag@ + envelope@,
{
    let mut out: Vec<u8> = Vec::new();
    append_array(&mut out, tag);
    append_slice(&mut out, envelope);
    out
}

/// Splits a tagged payload into the tag, its first sixteen bytes, and the
/// envelope behind it. A payload that is shorter than a tag is refused.
pub fn split_tagged(payload: &[u8]) -> (r: Result<(SecretTag, Vec<u8>), Error>)
    ensures
        match r {
            Ok((tag, envelope)) => payload@.len() >= 16 && payload@ == tag@ + envelope@,
            Err(e) => e == Error::Deserialization && payload@.len() < 16,
        },
{
    let n: usize = payload.len();
    if n < 16 {
        return Err(Error::Deserialization);
    }
    let tag: SecretTag = chunk(payload, 0);
    let mut envelope: Vec<u8> = Vec::new();
    let mut i: usize = 16;
    while i < n
        invariant
            16 <= i <= n,
            n == payload@.len(),
            envelope@ == payload@.subrange(16, i as int),
        decreases n - i,
    {
        envelope.push(payload[i]);
        assert(payload@.subrange(16, i + 1) =~= payload@.subrange(16, i as int).push(
            payload@[i as int],
        ));
        i = i + 1;
    }
    assert(payload@ =~= tag@ + envelope@);
    Ok((tag, envelope))
}

} // verus!
