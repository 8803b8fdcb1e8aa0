use vstd::prelude::*;

verus! {

/// The attenuation, in dB, that the codec applies for a volume given as a
/// percentage: 100% is 0 dB, 0% is -80 dB, linear in between, rounded
/// toward zero.
pub open spec fn db_for_percentage(value: int) -> int {
    -((80 * (100 - value)) / 100)
}

/// Maps a volume slider position (a percentage) to codec attenuation in dB.
pub fn percentage_to_db(value: u32) -> (db: i32)
    requires
        value <= 100,
    ensures
        db == db_for_percentage(value as int),
        -80 <= db <= 0,
{
    let negated_val = 100 - value;
    assert(0 <= negated_val * 80 <= 8000) by (nonlinear_arith)
        requires negated_val <= 100;
    (negated_val as i32 * -80) / 100
}

/// Full volume is no attenuation, zero volume is the codec's full 80 dB.
pub proof fn lemma_db_endpoints()
    ensures
        db_for_percentage(100) == 0,
        db_for_percentage(0) == -80,
{
}

/// A louder slider position never gives a stronger attenuation.
pub proof fn lemma_db_monotonic(a: int, b: int)
    requires
        0 <= a <= b <= 100,
    ensures
        db_for_percentage(a) <= db_for_percentage(b),
{
    assert((80 * (100 - b)) / 100 <= (80 * (100 - a)) / 100) by (nonlinear_arith)
        requires
            0 <= a <= b <= 100,
    ;
}

} // verus!
