use vstd::prelude::*;

verus! {

/// The lowest address a configured device may have; 0 is the broadcast address.
pub const DEVICE_ADDRESS_MIN: u8 = 1;

/// The highest address a configured device may have.
pub const DEVICE_ADDRESS_MAX: u8 = 247;

#[derive(Clone, Copy, Debug, PartialEq, Eq, Structural)]
pub enum DeviceType {
    Fan,
    TemperatureSensor,
}

/// The registry is not reachable from where it was asked for.
#[derive(Clone, Copy, Debug, PartialEq, Eq, Structural)]
pub struct NoStateError;

#[derive(Clone, Copy, Debug, PartialEq, Eq, Structural)]
pub enum CreateDeviceError {
    /// The address was outside 1..=247.
    AddressOutOfRange,
    /// A configured device already has the address.
    AddressTaken,
    /// No registry was available to the request.
    NoState(NoStateError),
}

/// A configured field device.
#[derive(Clone, Copy, Debug, PartialEq, Eq, Structural)]
pub struct Device {
    pub address: u8,
    pub device_type: DeviceType,
}

/// Whether `address` may be given to a configured device.
pub open spec fn address_in_range(address: u8) -> bool {
    DEVICE_ADDRESS_MIN <= address <= DEVICE_ADDRESS_MAX
}

/// Whether some device of `devices` has `address`.
pub open spec fn address_taken(devices: Seq<Device>, address: u8) -> bool {
    exists|i: int| 0 <= i < devices.len() && #[trigger] devices[i].address == address
}

/// Every device has an address in range, and no two share one.
pub open spec fn registry_wf(devices: Seq<Device>) -> bool {
    &&& forall|i: int| 0 <= i < devices.len() ==> address_in_range(#[trigger] devices[i].address)
    &&& forall|i: int, j: int|
        0 <= i < devices.len() && 0 <= j < devices.len() && i != j ==> #[trigger] devices[i].address
            != #[trigger] devices[j].address
}

/// The outcome of asking to add `device` to a table holding `devices`: the
/// updated table, or the reason it is refused.
pub open spec fn create_outcome(devices: Seq<Device>, device: Device) -> Result<
    Seq<Device>,
    CreateDeviceError,
> {
    if !address_in_range(device.address) {
        Err(CreateDeviceError::AddressOutOfRange)
    } else if address_taken(devices, device.address) {
        Err(CreateDeviceError::AddressTaken)
    } else {
        Ok(devices.push(device))
    }
}

/// The table of configured devices, in insertion order, unique by address.
pub struct DeviceRegistry {
    devices: Vec<Device>,
}

impl View for DeviceRegistry {
    type V = Seq<Device>;

    closed spec fn view(&self) -> Seq<Device> {
        self.devices@
    }
}

impl DeviceRegistry {
    #[verifier::type_invariant]
    spec fn inv(&self) -> bool {
        registry_wf(self.devices@)
    }

    /// An empty registry.
    pub fn new() -> (r: DeviceRegistry)
        ensures
            r@ == Seq::<Device>::empty(),
    {
        DeviceRegistry { devices: Vec::new() }
    }

    /// A copy of the current table, in insertion order.
    pub fn devices(&self) -> (r: Vec<Device>)
        ensures
            r@ == self@,
            registry_wf(self@),
    {
        proof {
            use_type_invariant(self);
            assert(registry_wf(self@));
        }
        let mut out: Vec<Device> = Vec::new();
        let mut i: usize = 0;
        while i < self.devices.len()
            invariant
                i <= self.devices@.len(),
                out@ == self.devices@.subrange(0, i as int),
            decreases self.devices@.len() - i,
        {
            out.push(self.devices[i]);
            i = i + 1;
        }
        assert(out@ == self.devices@);
        out
    }

    /// Whether a configured device has `address`.
    pub fn is_taken(&self, address: u8) -> (r: bool)
        ensures
            r == address_taken(self@, address),
            registry_wf(self@),
    {
        proof {
            use_type_invariant(self);
            assert(registry_wf(self@));
        }
        let mut i: usize = 0;
        while i < self.devices.len()
            invariant
                i <= self.devices@.len(),
                forall|j: int| 0 <= j < i ==> self.devices@[j].address != address,
                registry_wf(self@),
            decreases self.devices@.len() - i,
        {
            if self.devices[i].address == address {
                assert(self.devices@[i as int].address == address);
                return true;
            }
            i = i + 1;
        }
        false
    }

    /// Adds `device` unless its address is out of range or already taken, and
    /// returns a copy of the updated table; a refused device leaves the table
    /// unchanged.
    pub fn create(&mut self, device: Device) -> (r: Result<Vec<Device>, CreateDeviceError>)
        ensures
            match create_outcome(old(self)@, device) {
                Ok(s) => r is Ok && r->Ok_0@ == s && final(self)@ == s,
                Err(e) => r == Err::<Vec<Device>, CreateDeviceError>(e) && final(self)@ == old(
                    self,
                )@,
            },
            registry_wf(final(self)@),
    {
        proof {
            use_type_invariant(&*self);
            assert(registry_wf(self@));
        }
        if device.address < DEVICE_ADDRESS_MIN || device.address > DEVICE_ADDRESS_MAX {
            return Err(CreateDeviceError::AddressOutOfRange);
        }
        if self.is_taken(device.address) {
            return Err(CreateDeviceError::AddressTaken);
        }
        let mut table = self.devices();
        table.push(device);
        *self = DeviceRegistry { devices: table };
        Ok(self.devices())
    }
}


/// Adds `device` to the registry reached by the request. An address out of
/// range is refused before the registry is looked at; a request that reached
/// no registry fails with `NoState`.
pub fn create_device(registry: Option<&mut DeviceRegistry>, device: Device) -> (r: Result<
    Vec<Device>,
    CreateDeviceError,
>)
    ensures
        !address_in_range(device.address) ==> r == Err::<Vec<Device>, CreateDeviceError>(
            CreateDeviceError::AddressOutOfRange,
        ),
        address_in_range(device.address) && registry is None ==> r == Err::<
            Vec<Device>,
            CreateDeviceError,
        >(CreateDeviceError::NoState(NoStateError)),
        registry is Some ==> match create_outcome(registry->Some_0@, device) {
            Ok(s) => r is Ok && r->Ok_0@ == s && final(registry->Some_0)@ == s,
            Err(e) => r == Err::<Vec<Device>, CreateDeviceError>(e) && final(registry->Some_0)@ == registry->Some_0@,
        },
{
    if device.address < DEVICE_ADDRESS_MIN || device.address > DEVICE_ADDRESS_MAX {
        return Err(CreateDeviceError::AddressOutOfRange);
    }
    match registry {
        None => Err(CreateDeviceError::NoState(NoStateError)),
        Some(reg) => reg.create(device),
    }
}

/// The table after running `calls` one at a time, in order, from `devices`;
/// a refused call leaves the table as it was.
pub open spec fn after_creates(devices: Seq<Device>, calls: Seq<Device>) -> Seq<Device>
    decreases calls.len(),
{
    if calls.len() == 0 {
        devices
    } else {
        let before = after_creates(devices, calls.drop_last());
        match create_outcome(before, calls.last()) {
            Ok(s) => s,
            Err(_) => before,
        }
    }
}

/// Adding a device keeps addresses in range and unique.
pub proof fn lemma_create_preserves_wf(devices: Seq<Device>, device: Device)
    requires
        registry_wf(devices),
    ensures
        create_outcome(devices, device) matches Ok(s) ==> registry_wf(s),
{
    if create_outcome(devices, device) is Ok {
        let s = devices.push(device);
        assert forall|i: int, j: int|
            0 <= i < s.len() && 0 <= j < s.len() && i != j implies #[trigger] s[i].address
            != #[trigger] s[j].address by {
            if i == devices.len() {
                assert(devices[j].address == s[j].address);
            } else if j == devices.len() {
                assert(devices[i].address == s[i].address);
            }
        }
    }
}

/// Once a create of an address has succeeded, every later create of the same
/// address is refused as taken: two creates never both win one address.
pub proof fn lemma_address_won_once(devices: Seq<Device>, first: Device, second: Device)
    requires
        first.address == second.address,
    ensures
        create_outcome(devices, first) matches Ok(s) ==> create_outcome(s, second)
            == Err::<Seq<Device>, CreateDeviceError>(CreateDeviceError::AddressTaken),
{
    if create_outcome(devices, first) is Ok {
        let s = devices.push(first);
        assert(s[devices.len() as int].address == second.address);
    }
}

/// Creates with distinct, in-range addresses that the table does not hold all
/// succeed, in whatever order they are serialised: the final table holds the
/// devices it started with followed by exactly one device per call, in call order.
pub proof fn lemma_distinct_creates_all_succeed(devices: Seq<Device>, calls: Seq<Device>)
    requires
        registry_wf(devices),
        forall|i: int| 0 <= i < calls.len() ==> address_in_range(#[trigger] calls[i].address),
        forall|i: int, j: int|
            0 <= i < calls.len() && 0 <= j < calls.len() && i != j ==> #[trigger] calls[i].address
                != #[trigger] calls[j].address,
        forall|i: int| 0 <= i < calls.len() ==> !address_taken(devices, #[trigger] calls[i].address),
    ensures
        after_creates(devices, calls) == devices + calls,
        registry_wf(devices + calls),
        forall|i: int|
            0 <= i < calls.len() ==> create_outcome(after_creates(devices, calls.take(i)), calls[i])
                == Ok::<Seq<Device>, CreateDeviceError>(devices + calls.take(i + 1)),
    decreases calls.len(),
{
    if calls.len() == 0 {
        assert(devices + calls == devices);
    } else {
        let p = calls.drop_last();
        let d = calls.last();
        lemma_distinct_creates_all_succeed(devices, p);
        assert(!address_taken(devices + p, d.address)) by {
            assert forall|k: int| 0 <= k < (devices + p).len() implies #[trigger] (devices
                + p)[k].address != d.address by {
                if k >= devices.len() {
                    assert(p[k - devices.len()] == calls[k - devices.len()]);
                    assert(calls[calls.len() - 1] == d);
                } else {
                    assert(!address_taken(devices, calls[calls.len() - 1].address));
                }
            }
        }
        assert((devices + p).push(d) == devices + calls);
        lemma_create_preserves_wf(devices + p, d);
        assert forall|i: int| 0 <= i < calls.len() implies create_outcome(
            after_creates(devices, #[trigger] calls.take(i)),
            calls[i],
        ) == Ok::<Seq<Device>, CreateDeviceError>(devices + calls.take(i + 1)) by {
            if i < p.len() {
                assert(calls.take(i) == p.take(i));
                assert(calls.take(i + 1) == p.take(i + 1));
                assert(calls[i] == p[i]);
            } else {
                assert(calls.take(i) == p);
                assert(calls.take(i + 1) == calls);
            }
        }
    }
}

} // verus!
