//! Token usage of model responses, and how usages add up.

use vstd::prelude::*;

verus! {

/// Token usage for one model response.
///
/// `input_tokens` is the full, cache-inclusive prompt size: it contains
/// `cache_read_tokens` and `cache_creation_tokens` as subsets. So
/// [`Usage::total`] (`input + output`) is the context-window occupancy.
#[derive(Clone, Copy, Debug, PartialEq, Eq, Structural)]
pub struct Usage {
    /// Full prompt tokens, cache-inclusive (a superset of the two cache fields).
    pub input_tokens: u32,
    /// Generated output (completion) tokens.
    pub output_tokens: u32,
    /// Subset of `input_tokens` served from the prompt cache.
    pub cache_read_tokens: Option<u32>,
    /// Subset of `input_tokens` written into the prompt cache.
    pub cache_creation_tokens: Option<u32>,
}

/// The usage with no tokens and no cache counts.
pub open spec fn zero_usage() -> Usage {
    Usage { input_tokens: 0, output_tokens: 0, cache_read_tokens: None, cache_creation_tokens: None }
}

impl Default for Usage {
    /// No tokens and no cache counts.
    fn default() -> (usage: Self)
        ensures
            usage == zero_usage(),
    {
        Usage { input_tokens: 0, output_tokens: 0, cache_read_tokens: None, cache_creation_tokens: None }
    }
}

/// `a + b`, or `u32::MAX` when that does not fit.
pub open spec fn sat_add(a: u32, b: u32) -> u32 {
    if a + b > u32::MAX {
        u32::MAX
    } else {
        (a + b) as u32
    }
}

/// A count, or `u32::MAX` when it does not fit in a `u32`.
pub open spec fn capped(n: int) -> int {
    if n <= u32::MAX {
        n
    } else {
        u32::MAX as int
    }
}

/// The saturating sum is the plain sum whenever that fits in a `u32`, and
/// `u32::MAX` otherwise; it is never less than either part.
pub proof fn lemma_sat_add_is_plain_sum_when_it_fits(a: u32, b: u32)
    ensures
        a + b <= u32::MAX ==> sat_add(a, b) == a + b,
        a + b > u32::MAX ==> sat_add(a, b) == u32::MAX,
        sat_add(a, b) >= a,
        sat_add(a, b) >= b,
        sat_add(a, b) <= a + b,
{
}

/// Each count of a sum of usages is the plain sum of the parts' counts when
/// that fits, `u32::MAX` otherwise; an absent cache count counts as zero, and
/// the sum's cache count is absent only when both parts' are.
pub proof fn lemma_usage_sum_adds_counts(a: Usage, b: Usage)
    ensures
        usage_sum(a, b).input_tokens as int == capped(a.input_tokens + b.input_tokens),
        usage_sum(a, b).output_tokens as int == capped(a.output_tokens + b.output_tokens),
        (usage_sum(a, b).cache_read_tokens is None) == (a.cache_read_tokens is None
            && b.cache_read_tokens is None),
        a.cache_read_tokens is Some && b.cache_read_tokens is Some ==> usage_sum(
            a,
            b,
        ).cache_read_tokens->0 as int == capped(a.cache_read_tokens->0 + b.cache_read_tokens->0),
        a.cache_read_tokens is Some && b.cache_read_tokens is None ==> usage_sum(
            a,
            b,
        ).cache_read_tokens == a.cache_read_tokens,
        a.cache_read_tokens is None && b.cache_read_tokens is Some ==> usage_sum(
            a,
            b,
        ).cache_read_tokens == b.cache_read_tokens,
        (usage_sum(a, b).cache_creation_tokens is None) == (a.cache_creation_tokens is None
            && b.cache_creation_tokens is None),
        a.cache_creation_tokens is Some && b.cache_creation_tokens is Some ==> usage_sum(
            a,
            b,
        ).cache_creation_tokens->0 as int == capped(
            a.cache_creation_tokens->0 + b.cache_creation_tokens->0,
        ),
        a.cache_creation_tokens is Some && b.cache_creation_tokens is None ==> usage_sum(
            a,
            b,
        ).cache_creation_tokens == a.cache_creation_tokens,
        a.cache_creation_tokens is None && b.cache_creation_tokens is Some ==> usage_sum(
            a,
            b,
        ).cache_creation_tokens == b.cache_creation_tokens,
{
}

/// The sum of two optional counts: absent when both are, otherwise the
/// saturating sum with an absent count taken as zero.
pub open spec fn add_optional(a: Option<u32>, b: Option<u32>) -> Option<u32> {
    match (a, b) {
        (None, None) => None,
        _ => Some(
            sat_add(
                match a {
                    Some(x) => x,
                    None => 0,
                },
                match b {
                    Some(y) => y,
                    None => 0,
                },
            ),
        ),
    }
}

/// The sum of two usages, field by field, saturating at `u32::MAX`.
pub open spec fn usage_sum(a: Usage, b: Usage) -> Usage {
    Usage {
        input_tokens: sat_add(a.input_tokens, b.input_tokens),
        output_tokens: sat_add(a.output_tokens, b.output_tokens),
        cache_read_tokens: add_optional(a.cache_read_tokens, b.cache_read_tokens),
        cache_creation_tokens: add_optional(a.cache_creation_tokens, b.cache_creation_tokens),
    }
}

/// The cache counts of a usage lie within its input count.
pub open spec fn cache_within_input(u: Usage) -> bool {
    &&& (u.cache_read_tokens matches Some(r) ==> r <= u.input_tokens)
    &&& (u.cache_creation_tokens matches Some(c) ==> c <= u.input_tokens)
}

impl Usage {
    /// A usage with no cache counts.
    pub fn new(input_tokens: u32, output_tokens: u32) -> (usage: Self)
        ensures
            usage == (Usage {
                input_tokens,
                output_tokens,
                cache_read_tokens: None,
                cache_creation_tokens: None,
            }),
    {
        Usage { input_tokens, output_tokens, cache_read_tokens: None, cache_creation_tokens: None }
    }

    /// Context-window occupancy: the full (cache-inclusive) prompt plus
    /// output, saturating at `u32::MAX`.
    pub fn total(&self) -> (n: u32)
        ensures
            n == sat_add(self.input_tokens, self.output_tokens),
            self.input_tokens + self.output_tokens <= u32::MAX ==> n == self.input_tokens
                + self.output_tokens,
            self.input_tokens + self.output_tokens > u32::MAX ==> n == u32::MAX,
    {
        self.input_tokens.saturating_add(self.output_tokens)
    }
}

/// Adds two optional counts: absent when both are, otherwise the saturating
/// sum with an absent count taken as zero.
pub fn add_optional_u32(a: Option<u32>, b: Option<u32>) -> (sum: Option<u32>)
    ensures
        sum == add_optional(a, b),
        (sum is None) == (a is None && b is None),
        sum is Some ==> sum->0 as int == capped(
            (if a is Some {
                a->0 as int
            } else {
                0
            }) + (if b is Some {
                b->0 as int
            } else {
                0
            }),
        ),
{
    match (a, b) {
        (None, None) => None,
        _ => {
            let x = match a {
                Some(x) => x,
                None => 0,
            };
            let y = match b {
                Some(y) => y,
                None => 0,
            };
            Some(x.saturating_add(y))
        },
    }
}

impl core::ops::Add<Usage> for Usage {
    type Output = Usage;

    fn add(self, other: Usage) -> (sum: Usage)
        ensures
            sum == usage_sum(self, other),
            sum.input_tokens as int == capped(self.input_tokens + other.input_tokens),
            sum.output_tokens as int == capped(self.output_tokens + other.output_tokens),
    {
        Usage {
            input_tokens: self.input_tokens.saturating_add(other.input_tokens),
            output_tokens: self.output_tokens.saturating_add(other.output_tokens),
            cache_read_tokens: add_optional_u32(self.cache_read_tokens, other.cache_read_tokens),
            cache_creation_tokens: add_optional_u32(
                self.cache_creation_tokens,
                other.cache_creation_tokens,
            ),
        }
    }
}

impl vstd::std_specs::ops::AddSpecImpl<Usage> for Usage {
    open spec fn obeys_add_spec() -> bool {
        true
    }

    open spec fn add_req(self, rhs: Usage) -> bool {
        true
    }

    open spec fn add_spec(self, rhs: Usage) -> Usage {
        usage_sum(self, rhs)
    }
}

impl core::ops::AddAssign<Usage> for Usage {
    fn add_assign(&mut self, other: Usage)
        ensures
            *final(self) == usage_sum(*old(self), other),
    {
        *self = *self + other;
    }
}

/// Adding usages is commutative.
pub proof fn lemma_usage_sum_commutes(a: Usage, b: Usage)
    ensures
        usage_sum(a, b) == usage_sum(b, a),
{
}

/// Adding usages is associative.
pub proof fn lemma_usage_sum_associates(a: Usage, b: Usage, c: Usage)
    ensures
        usage_sum(usage_sum(a, b), c) == usage_sum(a, usage_sum(b, c)),
{
}

/// The usage with no tokens and no cache counts (the default) adds nothing,
/// on either side.
pub proof fn lemma_usage_sum_identity(a: Usage)
    ensures
        usage_sum(a, zero_usage()) == a,
        usage_sum(zero_usage(), a) == a,
{
}

/// Adding usages keeps each cache count within the input count.
pub proof fn lemma_usage_sum_keeps_cache_within_input(a: Usage, b: Usage)
    requires
        cache_within_input(a),
        cache_within_input(b),
    ensures
        cache_within_input(usage_sum(a, b)),
{
}

/// A sum never counts fewer tokens than either of its parts.
pub proof fn lemma_usage_sum_grows(a: Usage, b: Usage)
    ensures
        usage_sum(a, b).input_tokens >= a.input_tokens,
        usage_sum(a, b).output_tokens >= a.output_tokens,
        sat_add(usage_sum(a, b).input_tokens, usage_sum(a, b).output_tokens) >= sat_add(
            a.input_tokens,
            a.output_tokens,
        ),
{
}

} // verus!
