//! The input devices that are watched for clicks: which ones there are, what changed
//! since the last look, and when the keys of this poll went down or up.

use vstd::prelude::*;

verus! {

/// The number by which the operating system knows an open device.
pub type Handle = i32;

/// The kind of event that a key sends.
pub const EV_KEY: u16 = 1;

/// The value of a key event for a key going up.
pub const KEY_UP: i32 = 0;

/// The value of a key event for a key going down.
pub const KEY_DOWN: i32 = 1;

/// The age, in microseconds, beyond which an event is too old to count.
pub const STALE_MICROS: i64 = 100_000;

/// A device as an enumeration finds it: where it is plugged in, if that is known, the
/// handle it was opened with, and whether it has keys.
pub struct Found {
    pub path: Option<String>,
    pub handle: Handle,
    pub keys: bool,
}

/// A device that is watched: where it is plugged in, and its handle.
pub struct Device {
    pub path: String,
    pub handle: Handle,
}

/// What is known of a found device.
pub struct FoundState {
    pub path: Option<Seq<char>>,
    pub handle: Handle,
    pub keys: bool,
}

/// What is known of a watched device.
pub struct DeviceState {
    pub path: Seq<char>,
    pub handle: Handle,
}

impl View for Found {
    type V = FoundState;

    open spec fn view(&self) -> FoundState {
        FoundState {
            path: match self.path {
                Some(path) => Some(path@),
                None => None,
            },
            handle: self.handle,
            keys: self.keys,
        }
    }
}

impl View for Device {
    type V = DeviceState;

    open spec fn view(&self) -> DeviceState {
        DeviceState { path: self.path@, handle: self.handle }
    }
}

/// What each of `found` holds.
pub open spec fn found_states(found: Seq<Found>) -> Seq<FoundState> {
    Seq::new(found.len(), |i: int| found[i]@)
}

/// What each of `devices` holds.
pub open spec fn device_states(devices: Seq<Device>) -> Seq<DeviceState> {
    Seq::new(devices.len(), |i: int| devices[i]@)
}

/// Whether one of `devices` is plugged in at `path`.
pub open spec fn has_path(devices: Seq<DeviceState>, path: Seq<char>) -> bool {
    exists|i: int| 0 <= i < devices.len() && #[trigger] devices[i].path == path
}

/// `devices` with `device` in it: in the place of the one at the same path, or else last.
pub open spec fn upsert(devices: Seq<DeviceState>, device: DeviceState) -> Seq<DeviceState> {
    if has_path(devices, device.path) {
        Seq::new(
            devices.len(),
            |i: int|
                if devices[i].path == device.path {
                    device
                } else {
                    devices[i]
                },
        )
    } else {
        devices.push(device)
    }
}

/// The devices to track among `found`, one for each path: a device without a path cannot
/// be told from another and is left out, and of two at one path the later one stays.
pub open spec fn mapping(found: Seq<FoundState>) -> Seq<DeviceState>
    decreases found.len(),
{
    if found.len() == 0 {
        Seq::empty()
    } else {
        let before = mapping(found.drop_last());
        match found.last().path {
            None => before,
            Some(path) => upsert(before, DeviceState { path, handle: found.last().handle }),
        }
    }
}

/// Those of `found` that have keys, in their order.
pub open spec fn with_keys(found: Seq<FoundState>) -> Seq<FoundState>
    decreases found.len(),
{
    if found.len() == 0 {
        Seq::empty()
    } else if found.last().keys {
        with_keys(found.drop_last()).push(found.last())
    } else {
        with_keys(found.drop_last())
    }
}

/// Those of `devices`, in their order, whose path is among `others` (`present`), or is
/// not (`!present`).
pub open spec fn chosen(devices: Seq<DeviceState>, others: Seq<DeviceState>, present: bool) -> Seq<
    DeviceState,
>
    decreases devices.len(),
{
    if devices.len() == 0 {
        Seq::empty()
    } else if has_path(others, devices.last().path) == present {
        chosen(devices.drop_last(), others, present).push(devices.last())
    } else {
        chosen(devices.drop_last(), others, present)
    }
}

/// Each of `devices` as an enumeration would find it.
pub open spec fn refound(devices: Seq<DeviceState>) -> Seq<FoundState> {
    Seq::new(
        devices.len(),
        |i: int| FoundState { path: Some(devices[i].path), handle: devices[i].handle, keys: true },
    )
}

/// The handles of `devices`, in their order.
pub open spec fn handles(devices: Seq<DeviceState>) -> Seq<Handle> {
    Seq::new(devices.len(), |i: int| devices[i].handle)
}

/// The devices that are watched and the journal of changes not yet applied to the poll
/// set: the handles to add to it and those to remove from it.
pub struct Registry {
    pub devices: Seq<DeviceState>,
    pub added: Seq<Handle>,
    pub removed: Seq<Handle>,
}

impl Registry {
    /// No device, and nothing to apply.
    pub open spec fn empty() -> Registry {
        Registry { devices: Seq::empty(), added: Seq::empty(), removed: Seq::empty() }
    }

    /// The registry after an enumeration found `found`. A device that was watched and is
    /// found again stays, with the handle it had. One that was watched and is not found
    /// leaves, and its handle is noted as removed. One that is found and was not watched
    /// joins, and its handle is noted as added.
    pub open spec fn reenumerated(self, found: Seq<FoundState>) -> Registry {
        let old = mapping(refound(self.devices));
        let new = mapping(with_keys(found));
        let kept = chosen(old, new, true);
        let gone = chosen(old, new, false);
        let fresh = chosen(new, old, false);
        Registry {
            devices: kept + fresh,
            added: self.added + handles(fresh),
            removed: self.removed + handles(gone),
        }
    }

    /// The registry once its journal has been applied.
    pub open spec fn applied(self) -> Registry {
        Registry { added: Seq::empty(), removed: Seq::empty(), ..self }
    }
}

/// The handles to take out of the poll set and those to put into it.
pub struct Journal {
    pub removed: Vec<Handle>,
    pub added: Vec<Handle>,
}

/// The time of day as the operating system gives it.
#[derive(Clone, Copy, Debug, PartialEq, Eq, Structural)]
pub struct Timestamp {
    pub seconds: i64,
    pub nanos: u32,
}

/// One event of an input device, with the time the kernel gave it.
#[derive(Clone, Copy, Debug, PartialEq, Eq, Structural)]
pub struct KeyEvent {
    pub kind: u16,
    pub value: i32,
    pub seconds: i64,
    pub micros: i64,
}

impl KeyEvent {
    /// Whether the event is a key going down or up.
    pub open spec fn is_click(self) -> bool {
        self.kind == EV_KEY && (self.value == KEY_UP || self.value == KEY_DOWN)
    }

    /// How long before `now` the event happened, in microseconds.
    pub open spec fn age(self, now: Timestamp) -> int {
        (now.seconds - self.seconds) * 1_000_000 + (now.nanos / 1000) as int - self.micros
    }

    /// Whether the event counts at time `now`: a click that is not too old.
    pub open spec fn counts(self, now: Timestamp) -> bool {
        self.is_click() && self.age(now) <= STALE_MICROS
    }

    /// When the event happened, in microseconds from `now`: its age turned negative, and
    /// zero for an event that the clock dates after `now`.
    pub open spec fn offset(self, now: Timestamp) -> int {
        if self.age(now) <= 0 {
            0
        } else {
            -self.age(now)
        }
    }
}

/// Whether the strings of two paths are the same.
fn same_path(first: &String, second: &String) -> (same: bool)
    ensures
        same == (first@ == second@),
{
    *first == *second
}

/// Where in `devices` a device at `path` stands, if there is one.
fn position(devices: &Vec<Device>, path: &String) -> (place: Option<usize>)
    ensures
        place is Some <==> has_path(device_states(devices@), path@),
        place is Some ==> place.unwrap() < devices.len() && devices[place.unwrap() as int].path@
            == path@,
{
    let mut i: usize = 0;
    while i < devices.len()
        invariant
            i <= devices.len(),
            forall|k: int| 0 <= k < i ==> (#[trigger] device_states(devices@)[k]).path != path@,
        decreases devices.len() - i,
    {
        if same_path(&devices[i].path, path) {
            assert(device_states(devices@)[i as int].path == path@);
            return Some(i);
        }
        i += 1;
    }
    None
}

/// Puts a device at `path` with `handle` into `devices`: in the place of every one at
/// that path, or else last.
fn put(devices: &mut Vec<Device>, path: String, handle: Handle)
    ensures
        device_states(final(devices)@) == upsert(
            device_states(old(devices)@),
            DeviceState { path: path@, handle },
        ),
{
    let ghost before = device_states(devices@);
    let ghost device = DeviceState { path: path@, handle };
    match position(devices, &path) {
        None => {
            devices.push(Device { path, handle });
            assert(device_states(devices@) =~= before.push(device));
        },
        Some(_) => {
            let mut i: usize = 0;
            while i < devices.len()
                invariant
                    i <= devices.len(),
                    devices.len() == before.len(),
                    device == (DeviceState { path: path@, handle }),
                    forall|k: int|
                        0 <= k < i ==> device_states(devices@)[k] == (if (#[trigger] before[k]).path
                            == device.path {
                            device
                        } else {
                            before[k]
                        }),
                    forall|k: int|
                        i <= k < devices.len() ==> device_states(devices@)[k] == #[trigger] before[k],
                decreases devices.len() - i,
            {
                if same_path(&devices[i].path, &path) {
                    devices.set(i, Device { path: path.clone(), handle });
                }
                i += 1;
            }
            assert(device_states(devices@) =~= upsert(before, device));
        },
    }
}

/// The devices to track among `devices`, one for each path. A device without a path is
/// left out, and of two at one path the later one stays.
pub fn make_device_mapping(devices: Vec<Found>) -> (unique: Vec<Device>)
    ensures
        device_states(unique@) == mapping(found_states(devices@)),
{
    let mut unique: Vec<Device> = Vec::new();
    let mut i: usize = 0;
    assert(found_states(devices@).take(0) =~= Seq::empty());
    assert(device_states(unique@) =~= Seq::empty());
    while i < devices.len()
        invariant
            i <= devices.len(),
            device_states(unique@) == mapping(found_states(devices@).take(i as int)),
        decreases devices.len() - i,
    {
        assert(found_states(devices@).take(i + 1).drop_last() =~= found_states(devices@).take(
            i as int,
        ));
        match &devices[i].path {
            None => {},
            Some(path) => {
                put(&mut unique, path.clone(), devices[i].handle);
            },
        }
        i += 1;
    }
    assert(found_states(devices@).take(devices.len() as int) =~= found_states(devices@));
    unique
}

/// Those of `devices` whose path is among `others` (`present`), or is not (`!present`).
fn choose_devices(devices: &Vec<Device>, others: &Vec<Device>, present: bool) -> (picked: Vec<
    Device,
>)
    ensures
        device_states(picked@) == chosen(
            device_states(devices@),
            device_states(others@),
            present,
        ),
{
    let mut picked: Vec<Device> = Vec::new();
    let mut i: usize = 0;
    assert(device_states(devices@).take(0) =~= Seq::empty());
    assert(device_states(picked@) =~= Seq::empty());
    while i < devices.len()
        invariant
            i <= devices.len(),
            device_states(picked@) == chosen(
                device_states(devices@).take(i as int),
                device_states(others@),
                present,
            ),
        decreases devices.len() - i,
    {
        assert(device_states(devices@).take(i + 1).drop_last() =~= device_states(devices@).take(
            i as int,
        ));
        let ghost before = device_states(picked@);
        if position(others, &devices[i].path).is_some() == present {
            picked.push(Device { path: devices[i].path.clone(), handle: devices[i].handle });
            assert(device_states(picked@) =~= before.push(devices[i as int]@));
        }
        i += 1;
    }
    assert(device_states(devices@).take(devices.len() as int) =~= device_states(devices@));
    picked
}

/// Appends the handles of `devices` to `journal`.
fn note_handles(journal: &mut Vec<Handle>, devices: &Vec<Device>)
    ensures
        final(journal)@ == old(journal)@ + handles(device_states(devices@)),
{
    let mut i: usize = 0;
    assert(journal@ =~= old(journal)@ + handles(device_states(devices@)).take(0));
    while i < devices.len()
        invariant
            i <= devices.len(),
            journal@ == old(journal)@ + handles(device_states(devices@)).take(i as int),
        decreases devices.len() - i,
    {
        journal.push(devices[i].handle);
        i += 1;
        assert(journal@ =~= old(journal)@ + handles(device_states(devices@)).take(i as int));
    }
    assert(handles(device_states(devices@)).take(devices.len() as int) =~= handles(
        device_states(devices@),
    ));
}

/// The watched devices, each as if it had just been found.
fn as_found(devices: &Vec<Device>) -> (found: Vec<Found>)
    ensures
        found_states(found@) == refound(device_states(devices@)),
{
    let mut found: Vec<Found> = Vec::new();
    let mut i: usize = 0;
    while i < devices.len()
        invariant
            i <= devices.len(),
            found.len() == i,
            forall|k: int|
                0 <= k < i ==> (#[trigger] found[k])@ == (FoundState {
                    path: Some(devices[k].path@),
                    handle: devices[k].handle,
                    keys: true,
                }),
        decreases devices.len() - i,
    {
        found.push(
            Found { path: Some(devices[i].path.clone()), handle: devices[i].handle, keys: true },
        );
        i += 1;
    }
    assert(found_states(found@) =~= refound(device_states(devices@)));
    found
}

/// Those of `found` that have keys.
fn keep_keys(found: Vec<Found>) -> (kept: Vec<Found>)
    ensures
        found_states(kept@) == with_keys(found_states(found@)),
{
    let mut kept: Vec<Found> = Vec::new();
    let mut i: usize = 0;
    assert(found_states(found@).take(0) =~= Seq::empty());
    assert(found_states(kept@) =~= Seq::empty());
    while i < found.len()
        invariant
            i <= found.len(),
            found_states(kept@) == with_keys(found_states(found@).take(i as int)),
        decreases found.len() - i,
    {
        assert(found_states(found@).take(i + 1).drop_last() =~= found_states(found@).take(
            i as int,
        ));
        let ghost before = found_states(kept@);
        if found[i].keys {
            let path: Option<String> = match &found[i].path {
                Some(path) => Some(path.clone()),
                None => None,
            };
            kept.push(Found { path, handle: found[i].handle, keys: true });
            assert(found_states(kept@) =~= before.push(found[i as int]@));
        }
        i += 1;
    }
    assert(found_states(found@).take(found.len() as int) =~= found_states(found@));
    kept
}

/// The devices watched for clicks, with the journal of changes for the poll set.
pub struct ClickyEvents {
    devices: Vec<Device>,
    added: Vec<Handle>,
    removed: Vec<Handle>,
}

impl View for ClickyEvents {
    type V = Registry;

    closed spec fn view(&self) -> Registry {
        Registry {
            devices: device_states(self.devices@),
            added: self.added@,
            removed: self.removed@,
        }
    }
}

impl ClickyEvents {
    /// Nothing is watched yet.
    pub fn new() -> (events: ClickyEvents)
        ensures
            events@ == Registry::empty(),
    {
        let events = ClickyEvents { devices: Vec::new(), added: Vec::new(), removed: Vec::new() };
        assert(events@.devices =~= Seq::empty());
        events
    }

    /// Takes in what an enumeration found: devices found again stay as they are, those no
    /// longer found leave, new ones with keys join, and the journal notes who left and
    /// who joined.
    pub fn reenumerate(&mut self, found: Vec<Found>)
        ensures
            final(self)@ == old(self)@.reenumerated(found_states(found@)),
    {
        let old = make_device_mapping(as_found(&self.devices));
        let new = make_device_mapping(keep_keys(found));
        let kept = choose_devices(&old, &new, true);
        let gone = choose_devices(&old, &new, false);
        let mut fresh = choose_devices(&new, &old, false);
        note_handles(&mut self.removed, &gone);
        note_handles(&mut self.added, &fresh);
        let ghost kept_states = device_states(kept@);
        let ghost fresh_states = device_states(fresh@);
        self.devices = kept;
        self.devices.append(&mut fresh);
        assert(device_states(self.devices@) =~= kept_states + fresh_states);
    }

    /// The handles of the devices that are watched, in their order.
    pub fn handles(&self) -> (watched: Vec<Handle>)
        ensures
            watched@ == handles(self@.devices),
    {
        let mut watched: Vec<Handle> = Vec::new();
        note_handles(&mut watched, &self.devices);
        assert(watched@ =~= handles(self@.devices));
        watched
    }

    /// Hands the journal out for the poll set and clears it.
    pub fn take_journal(&mut self) -> (journal: Journal)
        ensures
            journal.removed@ == old(self)@.removed,
            journal.added@ == old(self)@.added,
            final(self)@ == old(self)@.applied(),
    {
        let mut removed: Vec<Handle> = Vec::new();
        let mut added: Vec<Handle> = Vec::new();
        removed.append(&mut self.removed);
        added.append(&mut self.added);
        assert(removed@ =~= old(self)@.removed);
        assert(added@ =~= old(self)@.added);
        Journal { removed, added }
    }

    /// How many events a poll must have room for; with room for none there is nothing to
    /// poll.
    pub fn poll_capacity(&self) -> (room: usize)
        requires
            2 * self@.devices.len() <= usize::MAX,
        ensures
            room == 2 * self@.devices.len(),
    {
        2 * self.devices.len()
    }

    /// The watched devices, by handle and in their order, that the poll reported as
    /// `ready`: those are the ones to read events from.
    pub fn ready_devices(&self, ready: &Vec<Handle>) -> (readable: Vec<Handle>)
        ensures
            readable@ == handles(self@.devices).filter(|handle: Handle| ready@.contains(handle)),
    {
        let mut readable: Vec<Handle> = Vec::new();
        let ghost all = handles(self@.devices);
        let ghost wanted = |handle: Handle| ready@.contains(handle);
        let mut i: usize = 0;
        assert(all.take(0) =~= Seq::empty());
        proof {
            reveal(Seq::filter);
        }
        while i < self.devices.len()
            invariant
                i <= self.devices.len(),
                all == handles(self@.devices),
                wanted == |handle: Handle| ready@.contains(handle),
                readable@ == all.take(i as int).filter(wanted),
            decreases self.devices.len() - i,
        {
            let handle: Handle = self.devices[i].handle;
            let mut j: usize = 0;
            let mut hit: bool = false;
            while j < ready.len()
                invariant
                    j <= ready.len(),
                    hit <==> exists|k: int| 0 <= k < j && ready@[k] == handle,
                decreases ready.len() - j,
            {
                if ready[j] == handle {
                    hit = true;
                }
                j += 1;
            }
            assert(hit == ready@.contains(handle));
            proof {
                assert(all.take(i + 1).drop_last() =~= all.take(i as int));
                reveal(Seq::filter);
            }
            if hit {
                readable.push(handle);
            }
            i += 1;
        }
        assert(all.take(self.devices.len() as int) =~= all);
        readable
    }

    /// When the keys of this poll went down or up: the times of the earliest and of the
    /// latest click among `events` that counts at time `now`, in microseconds from `now`,
    /// both zero or less. Nothing where no event counts.
    pub fn when_clicked(now: Timestamp, events: &Vec<KeyEvent>) -> (clicked: Option<(i64, i64)>)
        ensures
            clicked is None <==> forall|i: int|
                0 <= i < events.len() ==> !(#[trigger] events[i]).counts(now),
            clicked is Some ==> {
                let (earliest, latest) = clicked.unwrap();
                &&& -STALE_MICROS <= earliest <= latest <= 0
                &&& exists|i: int|
                    0 <= i < events.len() && (#[trigger] events[i]).counts(now)
                        && events[i].offset(now) == earliest
                &&& exists|i: int|
                    0 <= i < events.len() && (#[trigger] events[i]).counts(now)
                        && events[i].offset(now) == latest
                &&& forall|i: int|
                    0 <= i < events.len() && (#[trigger] events[i]).counts(now) ==> earliest
                        <= events[i].offset(now) <= latest
            },
    {
        let mut clicked: Option<(i64, i64)> = None;
        let mut i: usize = 0;
        while i < events.len()
            invariant
                i <= events.len(),
                clicked is None <==> forall|k: int|
                    0 <= k < i ==> !(#[trigger] events[k]).counts(now),
                clicked is Some ==> {
                    let (earliest, latest) = clicked.unwrap();
                    &&& -STALE_MICROS <= earliest <= latest <= 0
                    &&& exists|k: int|
                        0 <= k < i && (#[trigger] events[k]).counts(now) && events[k].offset(now)
                            == earliest
                    &&& exists|k: int|
                        0 <= k < i && (#[trigger] events[k]).counts(now) && events[k].offset(now)
                            == latest
                    &&& forall|k: int|
                        0 <= k < i && (#[trigger] events[k]).counts(now) ==> earliest
                            <= events[k].offset(now) <= latest
                },
            decreases events.len() - i,
        {
            let event: KeyEvent = events[i];
            if event.kind == EV_KEY && (event.value == KEY_UP || event.value == KEY_DOWN) {
                let age: i128 = (now.seconds as i128 - event.seconds as i128) * 1_000_000 + (
                now.nanos / 1000) as i128 - event.micros as i128;
                if age <= STALE_MICROS as i128 {
                    let delta: i64 = if age <= 0 {
                        0
                    } else {
                        -(age as i64)
                    };
                    assert(event.counts(now) && event.offset(now) == delta);
                    clicked =
                    match clicked {
                        None => Some((delta, delta)),
                        Some((oldest, newest)) => Some(
                            (
                                if delta < oldest {
                                    delta
                                } else {
                                    oldest
                                },
                                if delta > newest {
                                    delta
                                } else {
                                    newest
                                },
                            ),
                        ),
                    };
                }
            }
            i += 1;
        }
        clicked
    }
}

/// A device stands among `devices` with `device` put in exactly if it is `device` or
/// stood there before at another path.
proof fn lemma_upsert_members(devices: Seq<DeviceState>, device: DeviceState, other: DeviceState)
    ensures
        upsert(devices, device).contains(other) <==> other == device || (devices.contains(other)
            && other.path != device.path),
{
    let after = upsert(devices, device);
    if after.contains(other) {
        let i = choose|i: int| 0 <= i < after.len() && after[i] == other;
        if has_path(devices, device.path) {
            if devices[i].path != device.path {
                assert(devices[i] == other);
            }
        } else if i < devices.len() {
            assert(devices[i] == other);
            assert(devices[i].path != device.path);
        }
    }
    if other == device {
        if has_path(devices, device.path) {
            let i = choose|i: int| 0 <= i < devices.len() && #[trigger] devices[i].path == device.path;
            assert(after[i] == device);
        } else {
            assert(after[devices.len() as int] == device);
        }
    }
    if devices.contains(other) && other.path != device.path {
        let i = choose|i: int| 0 <= i < devices.len() && devices[i] == other;
        assert(after[i] == other);
    }
}

/// Putting a device in keeps the paths distinct.
proof fn lemma_upsert_keeps_paths_distinct(devices: Seq<DeviceState>, device: DeviceState)
    requires
        paths_distinct(devices),
    ensures
        paths_distinct(upsert(devices, device)),
{
    let after = upsert(devices, device);
    assert forall|i: int, j: int| 0 <= i < j < after.len() implies after[i].path
        != after[j].path by {
        if has_path(devices, device.path) {
            assert(devices[i].path != devices[j].path);
        } else if j < devices.len() {
            assert(devices[i].path != devices[j].path);
        } else {
            assert(devices[i].path == devices[i].path);
        }
    }
}

/// Whether no two of `devices` are plugged in at one path.
pub open spec fn paths_distinct(devices: Seq<DeviceState>) -> bool {
    forall|i: int, j: int| 0 <= i < j < devices.len() ==> devices[i].path != devices[j].path
}

/// Whether the device at `place` is the last of `found` at its path, and has one.
pub open spec fn last_at_its_path(found: Seq<FoundState>, place: int) -> bool {
    &&& 0 <= place < found.len()
    &&& found[place].path is Some
    &&& forall|later: int| place < later < found.len() ==> found[later].path != found[place].path
}

/// The last device at its path among all but the newest of `found` is still the last at
/// its path where the newest is at another path or at none.
proof fn lemma_last_stays_last(found: Seq<FoundState>, place: int)
    requires
        found.len() > 0,
        last_at_its_path(found.drop_last(), place),
        found.last().path != found.drop_last()[place].path,
    ensures
        last_at_its_path(found, place),
        found[place] == found.drop_last()[place],
{
    let front = found.drop_last();
    assert forall|later: int| place < later < found.len() implies found[later].path
        != found[place].path by {
        if later < found.len() - 1 {
            assert(front[later] == found[later]);
        }
    }
}

/// The last device at its path among `found`, where it is not the newest, is the last
/// at its path among all but the newest, and the newest is at another path or at none.
proof fn lemma_last_was_last(found: Seq<FoundState>, place: int)
    requires
        last_at_its_path(found, place),
        place < found.len() - 1,
    ensures
        last_at_its_path(found.drop_last(), place),
        found[place] == found.drop_last()[place],
        found.last().path != found[place].path,
{
    let front = found.drop_last();
    assert forall|later: int| place < later < front.len() implies front[later].path
        != front[place].path by {
        assert(front[later] == found[later]);
    }
}

/// The devices to track are, for each path that occurs among the found ones, the last
/// device found at that path: no path occurs twice among them, and a device is tracked
/// exactly if it is the last one found at its path.
pub proof fn lemma_mapping_is_one_per_path(found: Seq<FoundState>, device: DeviceState)
    ensures
        paths_distinct(mapping(found)),
        mapping(found).contains(device) <==> exists|place: int|
            #[trigger] last_at_its_path(found, place) && found[place].path == Some(device.path)
                && found[place].handle == device.handle,
    decreases found.len(),
{
    if found.len() > 0 {
        let front = found.drop_last();
        let before = mapping(front);
        lemma_mapping_is_one_per_path(front, device);
        let newest = DeviceState {
            path: match found.last().path {
                Some(path) => path,
                None => device.path,
            },
            handle: found.last().handle,
        };
        if found.last().path is Some {
            lemma_upsert_keeps_paths_distinct(before, newest);
            lemma_upsert_members(before, newest, device);
        }
        if mapping(found).contains(device) {
            if found.last().path is Some && device == newest {
                assert(last_at_its_path(found, found.len() - 1));
            } else {
                let place = choose|place: int|
                    #[trigger] last_at_its_path(front, place) && front[place].path == Some(
                        device.path,
                    ) && front[place].handle == device.handle;
                lemma_last_stays_last(found, place);
            }
        }
        if exists|place: int|
            #[trigger] last_at_its_path(found, place) && found[place].path == Some(device.path)
                && found[place].handle == device.handle {
            let place = choose|place: int|
                #[trigger] last_at_its_path(found, place) && found[place].path == Some(
                    device.path,
                ) && found[place].handle == device.handle;
            if place < found.len() - 1 {
                lemma_last_was_last(found, place);
            }
        }
    }
}

/// A device is among the chosen ones exactly if it is among those chosen from and its
/// path is among the others, or is not, as was asked.
pub proof fn lemma_chosen_members(
    devices: Seq<DeviceState>,
    others: Seq<DeviceState>,
    present: bool,
    device: DeviceState,
)
    ensures
        chosen(devices, others, present).contains(device) <==> devices.contains(device)
            && has_path(others, device.path) == present,
    decreases devices.len(),
{
    if devices.len() > 0 {
        let front = devices.drop_last();
        lemma_chosen_members(front, others, present, device);
        let picked = chosen(devices, others, present);
        let before = chosen(front, others, present);
        if picked.contains(device) {
            let i = choose|i: int| 0 <= i < picked.len() && picked[i] == device;
            if i < before.len() {
                assert(before[i] == device);
                let k = choose|k: int| 0 <= k < front.len() && front[k] == device;
                assert(devices[k] == device);
            } else {
                assert(devices[devices.len() - 1] == device);
            }
        }
        if devices.contains(device) && has_path(others, device.path) == present {
            let k = choose|k: int| 0 <= k < devices.len() && devices[k] == device;
            if k < front.len() {
                assert(front[k] == device);
                let i = choose|i: int| 0 <= i < before.len() && before[i] == device;
                assert(picked[i] == device);
            } else {
                assert(picked[picked.len() - 1] == device);
            }
        }
    }
}

/// After an enumeration the devices watched are those that were found, and a device
/// that was watched before is watched with the handle it had: a device is watched
/// exactly if it was watched and is found again at its path, or is found at a path at
/// which none was watched.
pub proof fn lemma_reenumeration_carries_devices_over(
    registry: Registry,
    found: Seq<FoundState>,
    device: DeviceState,
)
    ensures
        ({
            let old = mapping(refound(registry.devices));
            let new = mapping(with_keys(found));
            registry.reenumerated(found).devices.contains(device) <==> (old.contains(device)
                && has_path(new, device.path)) || (new.contains(device) && !has_path(
                old,
                device.path,
            ))
        }),
{
    let old = mapping(refound(registry.devices));
    let new = mapping(with_keys(found));
    let kept = chosen(old, new, true);
    let fresh = chosen(new, old, false);
    lemma_chosen_members(old, new, true, device);
    lemma_chosen_members(new, old, false, device);
    let after = kept + fresh;
    if after.contains(device) {
        let i = choose|i: int| 0 <= i < after.len() && after[i] == device;
        if i < kept.len() {
            assert(kept[i] == device);
        } else {
            assert(fresh[i - kept.len()] == device);
        }
    }
    if kept.contains(device) {
        let i = choose|i: int| 0 <= i < kept.len() && kept[i] == device;
        assert(after[i] == device);
    }
    if fresh.contains(device) {
        let i = choose|i: int| 0 <= i < fresh.len() && fresh[i] == device;
        assert(after[kept.len() + i] == device);
    }
}

} // verus!
