//! Integrity of an event history: increasing event ids, and the hash
//! chain in which every event records the hash of the one before it.

use vstd::prelude::*;
use crate::event::Event;
use crate::text::{dec_text, hex_text, push_decimal, push_hex};

verus! {

/// The first position whose event id does not exceed the one before it.
pub open spec fn first_id_drop(events: Seq<Event>, i: int) -> bool {
    &&& 1 <= i < events.len()
    &&& events[i].event_id <= events[i - 1].event_id
    &&& forall|k: int| 1 <= k < i ==> events[k].event_id > #[trigger] events[k - 1].event_id
}

/// Event ids must increase along the history.
pub fn check_event_ids(events: &[Event]) -> (r: Result<(), String>)
    ensures
        r is Ok <==> forall|k: int| 1 <= k < events@.len() ==> events@[k].event_id > #[trigger] events@[k - 1].event_id,
        r matches Err(m) ==> exists|i: int| first_id_drop(events@, i) && m@ == "event_id not monotonic: event "@
            + dec_text(i as nat) + " has id "@ + dec_text(events@[i].event_id as nat) + ", previous has id "@
            + dec_text(events@[i - 1].event_id as nat),
{
    let mut i: usize = 1;
    while i < events.len()
        invariant
            1 <= i,
            i <= events@.len() || events@.len() == 0,
            forall|k: int| 1 <= k < i && k < events@.len() ==> events@[k].event_id > #[trigger] events@[k - 1].event_id,
        decreases events@.len() - i,
    {
        if events[i].event_id <= events[i - 1].event_id {
            assert(first_id_drop(events@, i as int));
            let mut m = "event_id not monotonic: event ".to_string();
            push_decimal(&mut m, i as u64);
            m.push_str(" has id ");
            push_decimal(&mut m, events[i].event_id);
            m.push_str(", previous has id ");
            push_decimal(&mut m, events[i - 1].event_id);
            return Err(m);
        }
        i += 1;
    }
    Ok(())
}

/// A link of the chain holds: the event records the hash of the one
/// before it, or records none (written before chaining).
pub open spec fn link_ok(events: Seq<Event>, hashes: Seq<u64>, i: int) -> bool {
    events[i].prev_hash == hashes[i - 1] || events[i].prev_hash == 0
}

/// The hash chain of a history, given the hash of each event: the first
/// event records no previous hash, and every later one records the hash
/// of the event before it (or none).
pub fn check_chain(events: &[Event], hashes: &[u64]) -> (r: Result<(), String>)
    requires
        hashes@.len() == events@.len(),
    ensures
        r is Ok <==> (events@.len() == 0 || (events@[0].prev_hash == 0 && forall|i: int| 1 <= i < events@.len() ==> #[trigger] link_ok(events@, hashes@, i))),
        r matches Err(m) ==> (events@.len() > 0 && events@[0].prev_hash != 0 && m@ == "event "@ + dec_text(events@[0].event_id as nat)
            + " has prev_hash "@ + hex_text(events@[0].prev_hash as nat, 16) + " but should be 0 (first event)"@)
            || exists|i: int| 1 <= i < events@.len() && !link_ok(events@, hashes@, i) && (forall|k: int| 1 <= k < i ==> #[trigger] link_ok(events@, hashes@, k))
            && m@ == "hash chain broken at event "@ + dec_text(events@[i].event_id as nat) + ": prev_hash="@
            + hex_text(events@[i].prev_hash as nat, 16) + ", expected="@ + hex_text(hashes@[i - 1] as nat, 16),
{
    if events.len() == 0 {
        return Ok(());
    }
    if events[0].prev_hash != 0 {
        let mut m = "event ".to_string();
        push_decimal(&mut m, events[0].event_id);
        m.push_str(" has prev_hash ");
        push_hex(&mut m, events[0].prev_hash, 16);
        m.push_str(" but should be 0 (first event)");
        return Err(m);
    }
    let mut i: usize = 1;
    while i < events.len()
        invariant
            1 <= i <= events@.len(),
            hashes@.len() == events@.len(),
            events@[0].prev_hash == 0,
            forall|k: int| 1 <= k < i ==> #[trigger] link_ok(events@, hashes@, k),
        decreases events@.len() - i,
    {
        let expected = hashes[i - 1];
        if events[i].prev_hash != expected && events[i].prev_hash != 0 {
            assert(!link_ok(events@, hashes@, i as int));
            let mut m = "hash chain broken at event ".to_string();
            push_decimal(&mut m, events[i].event_id);
            m.push_str(": prev_hash=");
            push_hex(&mut m, events[i].prev_hash, 16);
            m.push_str(", expected=");
            push_hex(&mut m, expected, 16);
            return Err(m);
        }
        i += 1;
    }
    Ok(())
}

} // verus!
