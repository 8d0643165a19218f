use gurukul::clock::{greet, greeting, Clock};

struct FakeClock(u64);

impl Clock for FakeClock {
    fn now_ms(&self) -> u64 {
        self.0
    }
}

#[test]
fn greet_uses_clock() {
    let c = FakeClock(42);
    assert_eq!(greet(&c), "gurukul app-core: t=42ms");
}

#[test]
fn greeting_spells_out_any_time() {
    assert_eq!(greeting(0), "gurukul app-core: t=0ms");
    assert_eq!(
        greeting(u64::MAX),
        "gurukul app-core: t=18446744073709551615ms"
    );
}
