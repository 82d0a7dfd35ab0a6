//! Registry of the devices that clients report.

use crate::text;
use vstd::prelude::*;

verus! {

/// Identifier of a device that reports none.
pub const UNKNOWN_DEVICE: &'static str = "(unknown)";

/// Name of a device that reports none.
pub const DEFAULT_NAME: &'static str = "Browser";

/// A device, as it reported itself during the handshake. Kept for display only.
pub struct DeviceEntry {
    pub device_id: String,
    pub name: String,
    pub first_seen_at: u64,
    pub last_seen_at: u64,
}

/// A device entry by its texts.
#[verifier::ext_equal]
pub struct Device {
    pub device_id: Seq<char>,
    pub name: Seq<char>,
    pub first_seen_at: u64,
    pub last_seen_at: u64,
}

impl View for DeviceEntry {
    type V = Device;

    open spec fn view(&self) -> Device {
        Device {
            device_id: self.device_id@,
            name: self.name@,
            first_seen_at: self.first_seen_at,
            last_seen_at: self.last_seen_at,
        }
    }
}

impl Clone for DeviceEntry {
    fn clone(&self) -> (r: Self)
        ensures
            r == *self,
    {
        DeviceEntry {
            device_id: self.device_id.clone(),
            name: self.name.clone(),
            first_seen_at: self.first_seen_at,
            last_seen_at: self.last_seen_at,
        }
    }
}

/// The entries of a registry by their texts.
pub open spec fn devices_view(entries: Seq<DeviceEntry>) -> Seq<Device> {
    entries.map_values(|d: DeviceEntry| d@)
}

/// Some device of the registry has this identifier.
pub open spec fn registered(devices: Seq<Device>, id: Seq<char>) -> bool {
    exists|i: int| 0 <= i < devices.len() && (#[trigger] devices[i]).device_id == id
}

/// No two devices of the registry have the same identifier.
pub open spec fn distinct_ids(devices: Seq<Device>) -> bool {
    forall|i: int, j: int|
        0 <= i < j < devices.len() ==> (#[trigger] devices[i]).device_id != (
        #[trigger] devices[j]).device_id
}

/// Position of the first device with this identifier, or the length when there is none.
pub open spec fn position_of(devices: Seq<Device>, id: Seq<char>) -> int
    decreases devices.len(),
{
    if devices.len() == 0 || devices.first().device_id == id {
        0
    } else {
        1 + position_of(devices.drop_first(), id)
    }
}

/// The registry after a device was seen: the first entry with its identifier takes the new name
/// and time, and without such an entry a new one goes to the end.
pub open spec fn seen(devices: Seq<Device>, id: Seq<char>, name: Seq<char>, now: u64) -> Seq<
    Device,
> {
    let at = position_of(devices, id);
    if at < devices.len() {
        devices.update(at, Device { name, last_seen_at: now, ..devices[at] })
    } else {
        devices.push(Device { device_id: id, name, first_seen_at: now, last_seen_at: now })
    }
}

/// The registry without the devices that have this identifier, the others in their order.
pub open spec fn without(devices: Seq<Device>, id: Seq<char>) -> Seq<Device> {
    devices.filter(|d: Device| d.device_id != id)
}

/// The identifier that a reported identifier stands for.
pub open spec fn effective_id(device_id: Option<Seq<char>>) -> Seq<char> {
    text::trimmed_or_spec(device_id, UNKNOWN_DEVICE@)
}

/// The name that a reported name stands for.
pub open spec fn effective_name(name: Option<Seq<char>>) -> Seq<char> {
    text::trimmed_or_spec(name, DEFAULT_NAME@)
}

/// `position_of` is the first position with the identifier.
pub proof fn lemma_position_of(devices: Seq<Device>, id: Seq<char>)
    ensures
        0 <= position_of(devices, id) <= devices.len(),
        position_of(devices, id) < devices.len() <==> registered(devices, id),
        position_of(devices, id) < devices.len() ==> devices[position_of(devices, id)].device_id
            == id,
        forall|i: int|
            0 <= i < position_of(devices, id) ==> (#[trigger] devices[i]).device_id != id,
    decreases devices.len(),
{
    if devices.len() > 0 && devices.first().device_id != id {
        let rest = devices.drop_first();
        lemma_position_of(rest, id);
        assert forall|i: int| 0 <= i < position_of(devices, id) implies (
        #[trigger] devices[i]).device_id != id by {
            if i > 0 {
                assert(devices[i] == rest[i - 1]);
            }
        }
        if registered(devices, id) {
            let i = choose|i: int|
                0 <= i < devices.len() && (#[trigger] devices[i]).device_id == id;
            assert(rest[i - 1] == devices[i]);
        }
    } else if devices.len() > 0 {
        assert(devices[0].device_id == id);
    }
}

/// Removing an identifier makes the registry shorter exactly when the identifier was registered.
pub proof fn lemma_without_is_shorter(devices: Seq<Device>, id: Seq<char>)
    ensures
        without(devices, id).len() <= devices.len(),
        without(devices, id).len() < devices.len() <==> registered(devices, id),
    decreases devices.len(),
{
    reveal(Seq::filter);
    if devices.len() > 0 {
        let earlier = devices.drop_last();
        lemma_without_is_shorter(earlier, id);
        if devices.last().device_id == id {
            assert(devices[devices.len() - 1].device_id == id);
        }
        if registered(earlier, id) {
            let i = choose|i: int|
                0 <= i < earlier.len() && (#[trigger] earlier[i]).device_id == id;
            assert(devices[i] == earlier[i]);
        }
        if registered(devices, id) && devices.last().device_id != id {
            let i = choose|i: int|
                0 <= i < devices.len() && (#[trigger] devices[i]).device_id == id;
            assert(earlier[i] == devices[i]);
        }
    }
}

/// Removing an identifier keeps distinct identifiers distinct.
pub proof fn lemma_without_keeps_distinct_ids(devices: Seq<Device>, id: Seq<char>)
    requires
        distinct_ids(devices),
    ensures
        distinct_ids(without(devices, id)),
    decreases devices.len(),
{
    reveal(Seq::filter);
    if devices.len() > 0 {
        let other = |d: Device| d.device_id != id;
        let earlier = devices.drop_last();
        let kept = without(earlier, id);
        let last = devices.last();
        assert(distinct_ids(earlier)) by {
            assert forall|i: int, j: int| 0 <= i < j < earlier.len() implies (
            #[trigger] earlier[i]).device_id != (#[trigger] earlier[j]).device_id by {
                assert(earlier[i] == devices[i] && earlier[j] == devices[j]);
            }
        }
        lemma_without_keeps_distinct_ids(earlier, id);
        assert forall|i: int| 0 <= i < kept.len() implies (#[trigger] kept[i]).device_id
            != last.device_id by {
            assert(kept.contains(kept[i]));
            earlier.lemma_filter_contains_rev(other, kept[i]);
            let j = choose|j: int| 0 <= j < earlier.len() && earlier[j] == kept[i];
            assert(devices[j] == kept[i]);
            assert(devices[devices.len() - 1] == last);
        }
        if other(last) {
            assert(without(devices, id) == kept.push(last));
        } else {
            assert(without(devices, id) == kept);
        }
    }
}

/// Removing an identifier goes through the registry one device after the other: each one with the
/// identifier is left out, and each other one is kept, unchanged and in its place among the rest.
pub proof fn law_removing_goes_device_by_device(
    devices: Seq<Device>,
    more: Seq<Device>,
    d: Device,
    id: Seq<char>,
)
    ensures
        without(devices + more, id) == without(devices, id) + without(more, id),
        d.device_id == id ==> without(seq![d], id) == Seq::<Device>::empty(),
        d.device_id != id ==> without(seq![d], id) == seq![d],
        !registered(devices, id) ==> without(devices, id) == devices,
{
    let other = |d: Device| d.device_id != id;
    Seq::filter_distributes_over_add(devices, more, other);
    assert(seq![d].drop_last() == Seq::<Device>::empty());
    reveal_with_fuel(Seq::filter, 2);
    lemma_without_nothing(devices, id);
}

proof fn lemma_without_nothing(devices: Seq<Device>, id: Seq<char>)
    ensures
        !registered(devices, id) ==> without(devices, id) == devices,
    decreases devices.len(),
{
    reveal(Seq::filter);
    if devices.len() > 0 && !registered(devices, id) {
        let earlier = devices.drop_last();
        if registered(earlier, id) {
            let i = choose|i: int|
                0 <= i < earlier.len() && (#[trigger] earlier[i]).device_id == id;
            assert(devices[i] == earlier[i]);
        }
        lemma_without_nothing(earlier, id);
        assert(devices[devices.len() - 1] == devices.last());
        assert(devices == earlier.push(devices.last()));
    }
}

/// Record that a device was seen at `now`.
pub fn note_seen(devices: &mut Vec<DeviceEntry>, id: String, name: String, now: u64)
    ensures
        devices_view(final(devices)@) == seen(devices_view(old(devices)@), id@, name@, now),
{
    let ghost before = devices_view(devices@);
    let mut i: usize = 0;
    while i < devices.len()
        invariant
            devices@ == old(devices)@,
            before == devices_view(old(devices)@),
            i <= devices@.len(),
            forall|j: int| 0 <= j < i ==> (#[trigger] before[j]).device_id != id@,
        decreases devices@.len() - i,
    {
        assert(before[i as int] == devices@[i as int]@);
        if devices[i].device_id == id {
            proof {
                lemma_position_of(before, id@);
                assert(registered(before, id@));
            }
            devices[i].last_seen_at = now;
            devices[i].name = name;
            assert(devices_view(devices@) == seen(before, id@, name@, now));
            return;
        }
        i = i + 1;
    }
    proof {
        lemma_position_of(before, id@);
    }
    devices.push(
        DeviceEntry { device_id: id, name, first_seen_at: now, last_seen_at: now },
    );
    assert(devices_view(devices@) == seen(before, id@, name@, now));
}

/// Drop every entry with this identifier.
pub fn forget(devices: &mut Vec<DeviceEntry>, id: &String)
    ensures
        devices_view(final(devices)@) == without(devices_view(old(devices)@), id@),
{
    let ghost before = devices_view(devices@);
    let ghost other = |d: Device| d.device_id != id@;
    let mut kept: Vec<DeviceEntry> = Vec::new();
    let mut i: usize = 0;
    assert(before.take(0) == Seq::<Device>::empty());
    assert(devices_view(kept@) == before.take(0).filter(other));
    while i < devices.len()
        invariant
            devices@ == old(devices)@,
            before == devices_view(old(devices)@),
            other == (|d: Device| d.device_id != id@),
            i <= devices@.len(),
            devices_view(kept@) == before.take(i as int).filter(other),
        decreases devices@.len() - i,
    {
        let ghost prior = kept@;
        proof {
            reveal_with_fuel(Seq::filter, 1);
            assert(before.take(i + 1).drop_last() == before.take(i as int));
            assert(before.take(i + 1).last() == devices@[i as int]@);
        }
        if devices[i].device_id != *id {
            kept.push(devices[i].clone());
            assert(devices_view(kept@) == devices_view(prior).push(devices@[i as int]@));
        }
        i = i + 1;
    }
    assert(before.take(i as int) == before);
    *devices = kept;
}

} // verus!
