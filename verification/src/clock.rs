//! The monotonic clock that a platform supplies, and the greeting stamped with it.

use vstd::prelude::*;
use vstd::string::StringExecFns;
use crate::text::push_decimal;

verus! {

/// Monotonic time source. Platforms supply an impl; tests use a fake.
pub trait Clock {
    /// Whether the clock may show `ms`. A clock that does not say may show any time.
    open spec fn reads(&self, ms: u64) -> bool {
        true
    }

    /// Milliseconds since some platform-defined epoch. Must be monotonic:
    /// successive calls never decrease.
    fn now_ms(&self) -> (ms: u64)
        ensures
            self.reads(ms),
    ;
}

/// The greeting line for the time `ms`.
pub open spec fn greeting_text(ms: u64) -> Seq<char> {
    "gurukul app-core: t="@ + crate::text::decimal(ms as nat) + "ms"@
}

/// The greeting line for the time `ms`.
pub fn greeting(ms: u64) -> (line: String)
    ensures
        line@ == greeting_text(ms),
{
    let mut line = String::new();
    line.append("gurukul app-core: t=");
    push_decimal(&mut line, ms);
    line.append("ms");
    line
}

/// A one-line greeting stamped with the platform clock, at a time that it shows.
pub fn greet(clock: &dyn Clock) -> (line: String)
    ensures
        exists|ms: u64| #[trigger] clock.reads(ms) && line@ == greeting_text(ms),
{
    let ms: u64 = clock.now_ms();
    greeting(ms)
}

/// The greeting names the time in full between its fixed beginning and its unit.
pub proof fn law_the_greeting_tells_the_time(ms: u64)
    ensures
        ({
            let line = greeting_text(ms);
            let digits = crate::text::decimal(ms as nat);
            &&& line.len() == digits.len() + 22
            &&& line.take(20) == "gurukul app-core: t="@
            &&& line.subrange(20, line.len() - 2) == digits
            &&& line.skip(line.len() - 2) == "ms"@
        }),
{
    reveal_strlit("gurukul app-core: t=");
    reveal_strlit("ms");
    let line = greeting_text(ms);
    let digits = crate::text::decimal(ms as nat);
    assert(line.take(20) =~= "gurukul app-core: t="@);
    assert(line.subrange(20, line.len() - 2) =~= digits);
    assert(line.skip(line.len() - 2) =~= "ms"@);
}

}
