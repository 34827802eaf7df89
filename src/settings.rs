//! A rider's record, and the switch between 12- and 24-hour clock times.

use vstd::prelude::*;
use vstd::string::StringExecFns;

verus! {

/// A rider, known by phone number.
pub struct Number {
    pub number: String,
    pub name: Option<String>,
    pub approved: bool,
    pub admin: bool,
    /// Departure times are shown on a 12-hour clock.
    pub twelve_hour: bool,
}

/// The confirmation for a rider whose clock setting is now `twelve_hour`.
pub open spec fn clock_message(twelve_hour: bool) -> Seq<char> {
    if twelve_hour {
        "times will now be in 12h format"@
    } else {
        "times will now be in 24h format"@
    }
}

pub open spec fn no_settings_message() -> Seq<char> {
    "Cannot change settings with this interface"@
}

/// Flips the rider's clock setting and says what it is now.
pub fn toggle_clock(number: &mut Number) -> (r: String)
    ensures
        final(number).twelve_hour == !old(number).twelve_hour,
        final(number).number == old(number).number,
        final(number).name == old(number).name,
        final(number).approved == old(number).approved,
        final(number).admin == old(number).admin,
        r@ == clock_message(final(number).twelve_hour),
{
    number.twelve_hour = !number.twelve_hour;
    if number.twelve_hour {
        String::from_str("times will now be in 12h format")
    } else {
        String::from_str("times will now be in 24h format")
    }
}

/// The reply to `settings clock`. With no rider record there is nothing to change;
/// otherwise the record's clock setting flips, and the caller stores it.
pub fn handle_settings_clock_request(number: &mut Option<Number>) -> (r: String)
    ensures
        (*old(number)) is None ==> (*final(number)) is None && r@ == no_settings_message(),
        (*old(number)) is Some ==> ({
            let before = (*old(number))->0;
            let after = (*final(number))->0;
            &&& (*final(number)) is Some
            &&& after.twelve_hour == !before.twelve_hour
            &&& after.number == before.number
            &&& after.name == before.name
            &&& after.approved == before.approved
            &&& after.admin == before.admin
            &&& r@ == clock_message(after.twelve_hour)
        }),
{
    match number {
        Some(n) => toggle_clock(n),
        None => String::from_str("Cannot change settings with this interface"),
    }
}

/// Whether a rider's departure times are on a 12-hour clock; it is the default for
/// anyone without a record.
pub fn uses_twelve_hour(number: &Option<Number>) -> (r: bool)
    ensures
        r == match number {
            Some(n) => n.twelve_hour,
            None => true,
        },
{
    match number {
        Some(n) => n.twelve_hour,
        None => true,
    }
}

/// Switching the clock twice gives back the setting it started from, and the second
/// confirmation names that setting.
pub proof fn lemma_toggle_twice(twelve_hour: bool)
    ensures
        !(!twelve_hour) == twelve_hour,
        clock_message(!(!twelve_hour)) == clock_message(twelve_hour),
        clock_message(!twelve_hour) != clock_message(twelve_hour),
{
    reveal_strlit("times will now be in 12h format");
    reveal_strlit("times will now be in 24h format");
    assert("times will now be in 12h format"@[21] != "times will now be in 24h format"@[21]);
}

/// The records of `numbers` whose approval is `approved`, in their order.
pub open spec fn with_approval(numbers: Seq<Number>, approved: bool) -> Seq<Number>
    decreases numbers.len(),
{
    if numbers.len() == 0 {
        Seq::empty()
    } else {
        let before = with_approval(numbers.drop_last(), approved);
        if numbers.last().approved == approved {
            before.push(numbers.last())
        } else {
            before
        }
    }
}

/// Riders split into the approved ones and the others, each in the order given.
pub fn split_by_approval(numbers: Vec<Number>) -> (r: (Vec<Number>, Vec<Number>))
    ensures
        r.0@ == with_approval(numbers@, true),
        r.1@ == with_approval(numbers@, false),
{
    let ghost all = numbers@;
    let mut rest = numbers;
    let total = rest.len();
    let mut approved: Vec<Number> = Vec::new();
    let mut others: Vec<Number> = Vec::new();
    let mut i: usize = 0;
    assert(all.subrange(0, 0) == Seq::<Number>::empty());
    assert(all.subrange(0, all.len() as int) == all);
    while rest.len() > 0
        invariant
            i <= all.len() == total,
            rest@ == all.subrange(i as int, all.len() as int),
            approved@ == with_approval(all.subrange(0, i as int), true),
            others@ == with_approval(all.subrange(0, i as int), false),
        decreases rest@.len(),
    {
        let n = rest.remove(0);
        assert(n == all[i as int]);
        assert(all.subrange(0, i + 1).drop_last() == all.subrange(0, i as int));
        assert(all.subrange(0, i + 1).last() == n);
        assert(rest@ =~= all.subrange(i + 1, all.len() as int));
        if n.approved {
            approved.push(n);
        } else {
            others.push(n);
        }
        i += 1;
    }
    assert(i == all.len());
    assert(all.subrange(0, i as int) == all);
    (approved, others)
}

} // verus!
