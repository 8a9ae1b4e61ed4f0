//! Requests for memory that may be refused.

use vstd::prelude::*;

verus! {

/// The value of a granted or refused request.
pub open spec fn room_view(room: Result<(), String>) -> Result<(), Seq<char>> {
    match room {
        Ok(_) => Ok(()),
        Err(reason) => Err(reason@),
    }
}

/// What came of a request for memory: how much was asked for, and whether it was granted, or why not.
#[derive(Debug)]
pub struct Room {
    #[allow(dead_code)]
    asked: usize,
    outcome: Result<(), String>,
}

impl Room {
    /// For how many elements memory was asked.
    pub closed spec fn requested(self) -> usize {
        self.asked
    }

    /// Whether the memory was granted, or why not.
    pub closed spec fn granted(self) -> Result<(), Seq<char>> {
        room_view(self.outcome)
    }

    /// Whether the memory was granted, or why not.
    pub fn outcome(self) -> (outcome: Result<(), String>)
        ensures
            room_view(outcome) == self.granted(),
    {
        self.outcome
    }
}

/// `Vec::try_reserve_exact` leaves the vector's contents as they are, whether it grants the memory
/// or not; a refusal comes with the words that `TryReserveError` prints. No memory at all is always
/// granted; of other requests nothing is said, as that depends on the machine.
#[verifier::external_body]
pub(crate) fn reserve_exact<T>(values: &mut Vec<T>, additional: usize) -> (room: Room)
    ensures
        final(values)@ == old(values)@,
        room.requested() == additional,
        additional == 0 ==> room.granted() is Ok,
{
    let outcome = values.try_reserve_exact(additional).map_err(|error| error.to_string());
    Room { asked: additional, outcome }
}

/// `HashMap::try_reserve` on an empty map: whether a map of `count` fingerprints can be had, or the
/// words that `TryReserveError` prints. No memory at all is always granted. A capacity that overflows
/// is refused, and one above `isize::MAX` does, as no allocation has more bytes. Of others nothing is
/// said: that depends on the machine.
#[verifier::external_body]
pub(crate) fn fingerprint_room(count: usize) -> (room: Room)
    ensures
        room.requested() == count,
        count == 0 ==> room.granted() is Ok,
        count > isize::MAX ==> room.granted() is Err,
{
    let mut map: std::collections::HashMap<String, u64> = std::collections::HashMap::new();
    let outcome = map.try_reserve(count).map_err(|error| error.to_string());
    Room { asked: count, outcome }
}

} // verus!
