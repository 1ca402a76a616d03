//! The verdict on one request, given what was counted before it.

use vstd::prelude::*;
use vstd::string::*;

use crate::rate_limiter::Options;

verus! {

/// What the limiter says of a request.
#[derive(Clone, Copy, Debug, PartialEq, Eq, Structural)]
pub enum Verdict {
    /// The request is not subject to limiting: nothing was counted.
    Unlimited,
    /// The request goes on; it is number `count` of its window.
    Admitted { count: usize },
    /// The request is turned away: its window is full. A new attempt may be
    /// made after `retry_after` seconds, the length of the window.
    RateLimitExceeded { retry_after: usize },
}

impl Verdict {
    /// Whether the request goes on to what follows the limiter.
    pub open spec fn allows(self) -> bool {
        !(self is RateLimitExceeded)
    }

    /// Whether the request goes on to what follows the limiter.
    pub fn is_allowed(&self) -> (allowed: bool)
        ensures
            allowed == self.allows(),
    {
        match self {
            Verdict::RateLimitExceeded { .. } => false,
            _ => true,
        }
    }
}

/// The verdict on a request under `policy`, where `current` requests were
/// counted in the window before it (`None` counts as zero): it is admitted as
/// number `current + 1` unless that exceeds `policy.max`.
pub open spec fn verdict_of(policy: Options, current: Option<usize>) -> Verdict {
    let seen: int = match current {
        Some(n) => n as int,
        None => 0,
    };
    if seen + 1 > policy.max {
        Verdict::RateLimitExceeded { retry_after: policy.per_s }
    } else {
        Verdict::Admitted { count: (seen + 1) as usize }
    }
}

/// Decides on a request under `policy`, where `current` is what the store
/// holds for its counter.
pub fn decide(policy: Options, current: Option<usize>) -> (verdict: Verdict)
    ensures
        verdict == verdict_of(policy, current),
{
    let seen = match current {
        Some(n) => n,
        None => 0,
    };
    if seen >= policy.max {
        Verdict::RateLimitExceeded { retry_after: policy.per_s }
    } else {
        Verdict::Admitted { count: seen + 1 }
    }
}

/// The status that a request which exceeds its limit is answered with.
pub const TOO_MANY_REQUESTS: u16 = 429;

/// The numeral of one digit.
pub open spec fn digit(d: int) -> Seq<char> {
    if d == 0 {
        "0"@
    } else if d == 1 {
        "1"@
    } else if d == 2 {
        "2"@
    } else if d == 3 {
        "3"@
    } else if d == 4 {
        "4"@
    } else if d == 5 {
        "5"@
    } else if d == 6 {
        "6"@
    } else if d == 7 {
        "7"@
    } else if d == 8 {
        "8"@
    } else {
        "9"@
    }
}

/// The decimal numeral of `n`, without leading zeros.
pub open spec fn decimal(n: nat) -> Seq<char>
    decreases n,
{
    if n < 10 {
        digit(n as int)
    } else {
        decimal(n / 10) + digit((n % 10) as int)
    }
}

/// What a request that exceeds its limit is told.
pub open spec fn rejection_text(retry_after: usize) -> Seq<char> {
    "Rate limit exceeded, please wait "@ + decimal(retry_after as nat) + " seconds"@
}

fn digit_text(d: usize) -> (text: &'static str)
    requires
        d < 10,
    ensures
        text@ == digit(d as int),
{
    if d == 0 {
        "0"
    } else if d == 1 {
        "1"
    } else if d == 2 {
        "2"
    } else if d == 3 {
        "3"
    } else if d == 4 {
        "4"
    } else if d == 5 {
        "5"
    } else if d == 6 {
        "6"
    } else if d == 7 {
        "7"
    } else if d == 8 {
        "8"
    } else {
        "9"
    }
}

fn append_decimal(text: &mut String, n: usize)
    ensures
        final(text)@ == old(text)@ + decimal(n as nat),
    decreases n,
{
    if n >= 10 {
        append_decimal(text, n / 10);
    }
    text.append(digit_text(n % 10));
    proof {
        if n >= 10 {
            assert(old(text)@ + decimal(n as nat) =~= old(text)@ + decimal((n / 10) as nat) + digit(
                (n % 10) as int,
            ));
        }
    }
}

/// The message for a request that exceeds its limit: it names the seconds
/// after which a new attempt may be made.
pub fn rejection_message(retry_after: usize) -> (message: String)
    ensures
        message@ == rejection_text(retry_after),
{
    let mut message = String::from_str("Rate limit exceeded, please wait ");
    append_decimal(&mut message, retry_after);
    message.append(" seconds");
    message
}

} // verus!
