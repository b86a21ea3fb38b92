//! The address-space bus: a router from guest addresses to emulated devices.
//!
//! Devices are registered once, each over a range of addresses; afterwards
//! every trapped guest access is handed to the device whose range holds the
//! address, at the offset of the address within that range.

use vstd::prelude::*;

verus! {

/// Errors of bus configuration and dispatch.
#[derive(Debug, Clone, Copy, PartialEq, Eq, Structural)]
pub enum BusError {
    /// No registered range holds the access that starts at this address.
    NoDeviceAt(u64),
    /// The range intersects one that is already registered.
    Overlap,
}

/// A non-empty run of addresses `base .. base + length` that ends within the
/// 64-bit address space.
#[derive(Debug, Clone, Copy, PartialEq, Eq, Structural)]
pub struct AddressRange {
    base: u64,
    length: u64,
}

impl AddressRange {
    /// The first address of the range.
    pub closed spec fn spec_base(&self) -> u64 {
        self.base
    }

    /// The number of addresses in the range.
    pub closed spec fn spec_length(&self) -> u64 {
        self.length
    }

    #[verifier::type_invariant]
    pub closed spec fn valid(&self) -> bool {
        self.length >= 1 && self.base + self.length - 1 <= u64::MAX
    }

    /// The address just past the range; for a range that reaches the top of
    /// the address space this is 2^64.
    pub open spec fn end(&self) -> int {
        self.base() + self.length()
    }

    /// Whether `address` lies in the range.
    pub open spec fn contains(&self, address: u64) -> bool {
        self.base() <= address < self.end()
    }

    /// Whether an access of `len` bytes that starts at `address` starts in the
    /// range and does not run past its end.
    pub open spec fn covers(&self, address: u64, len: nat) -> bool {
        self.contains(address) && address + len <= self.end()
    }

    /// Whether the two ranges share an address.
    pub open spec fn intersects(&self, other: AddressRange) -> bool {
        self.base() < other.end() && other.base() < self.end()
    }

    /// The range of `length` addresses from `base` on, or `None` where that
    /// is no range: where `length` is zero or the range would run past the
    /// top of the address space.
    pub fn new(base: u64, length: u64) -> (range: Option<AddressRange>)
        ensures
            range is Some <==> length >= 1 && base + length - 1 <= u64::MAX,
            range matches Some(r) ==> r.base() == base && r.length() == length && r.valid(),
    {
        if length == 0 || base > u64::MAX - (length - 1) {
            None
        } else {
            Some(AddressRange { base, length })
        }
    }

    /// The first address of the range.
    #[verifier::when_used_as_spec(spec_base)]
    pub fn base(&self) -> (base: u64)
        ensures
            base == self.spec_base(),
    {
        self.base
    }

    /// The number of addresses in the range.
    #[verifier::when_used_as_spec(spec_length)]
    pub fn length(&self) -> (length: u64)
        ensures
            length == self.spec_length(),
    {
        self.length
    }

    /// The last address of the range.
    pub fn last(&self) -> (last: u64)
        ensures
            last == self.end() - 1,
            self.valid(),
    {
        proof {
            use_type_invariant(self);
        }
        self.base + (self.length - 1)
    }
}

/// An emulated device as the bus sees it: something that serves reads and
/// writes at offsets within the range it was registered over.
///
/// A device must put up with every offset and length the bus can present:
/// the bus checks that an access lies within the device's range and nothing
/// more. What a device does with an access is its own affair, and is stated
/// by the two relations of this trait, which each device defines for itself;
/// a device that defines none promises nothing of what it does.
pub trait BusDevice: Sized {
    /// Whether a read at `offset` into a buffer that held `before` may leave
    /// the device, which was `pre`, as `post` and the buffer holding `after`.
    open spec fn read_effect(pre: Self, offset: u64, before: Seq<u8>, post: Self, after: Seq<u8>) -> bool {
        true
    }

    /// Whether a write of `data` at `offset` may leave the device, which was
    /// `pre`, as `post`.
    open spec fn write_effect(pre: Self, offset: u64, data: Seq<u8>, post: Self) -> bool {
        true
    }

    /// Serves a read of `data.len()` bytes at `offset` within the device's
    /// range, filling `data`.
    fn read(&mut self, offset: u64, data: &mut [u8])
        ensures
            final(data)@.len() == old(data)@.len(),
            Self::read_effect(*old(self), offset, old(data)@, *final(self), final(data)@),
    ;

    /// Serves a write of `data` at `offset` within the device's range.
    fn write(&mut self, offset: u64, data: &[u8])
        ensures
            Self::write_effect(*old(self), offset, data@, *final(self)),
    ;
}

/// The registrations of a bus in order of address: each a range and the
/// device that answers on it.
pub type Registrations<D> = Seq<(AddressRange, D)>;

/// Whether the ranges of `entries` are valid, ordered by address and
/// pairwise disjoint: each ends before any later one begins.
pub open spec fn ordered_disjoint<D>(entries: Registrations<D>) -> bool {
    &&& forall|i: int| 0 <= i < entries.len() ==> (#[trigger] entries[i]).0.valid()
    &&& forall|i: int, j: int|
        0 <= i < j < entries.len() ==> (#[trigger] entries[i]).0.end() <= (#[trigger] entries[j]).0.base()
}

/// Whether some range of `entries` intersects `range`.
pub open spec fn any_intersects<D>(entries: Registrations<D>, range: AddressRange) -> bool {
    exists|i: int| 0 <= i < entries.len() && (#[trigger] entries[i]).0.intersects(range)
}

/// Whether some range of `entries` holds the whole access of `len` bytes
/// that starts at `address`.
pub open spec fn claimed<D>(entries: Registrations<D>, address: u64, len: nat) -> bool {
    exists|i: int| 0 <= i < entries.len() && (#[trigger] entries[i]).0.covers(address, len)
}

/// The place in `entries` of a range that holds `address`.
pub open spec fn owner<D>(entries: Registrations<D>, address: u64) -> int {
    choose|i: int| 0 <= i < entries.len() && (#[trigger] entries[i]).0.contains(address)
}

/// The number of ranges of `entries` that begin at or below `address`.
pub open spec fn rank<D>(entries: Registrations<D>, address: u64) -> int
    decreases entries.len(),
{
    if entries.len() == 0 {
        0
    } else {
        rank(entries.drop_last(), address) + if entries.last().0.base() <= address {
            1int
        } else {
            0int
        }
    }
}

/// Two distinct registrations never share an address.
pub proof fn lemma_registered_ranges_disjoint<D>(entries: Registrations<D>, i: int, j: int)
    requires
        ordered_disjoint(entries),
        0 <= i < entries.len(),
        0 <= j < entries.len(),
        i != j,
    ensures
        !entries[i].0.intersects(entries[j].0),
{
    if i < j {
        assert(entries[i].0.end() <= entries[j].0.base());
    } else {
        assert(entries[j].0.end() <= entries[i].0.base());
    }
}

/// At most one registration holds a given address, so the owner of an
/// address is the one registration that holds it.
pub proof fn lemma_owner_unique<D>(entries: Registrations<D>, address: u64, i: int)
    requires
        ordered_disjoint(entries),
        0 <= i < entries.len(),
        entries[i].0.contains(address),
    ensures
        owner(entries, address) == i,
{
    let k = owner(entries, address);
    if k != i {
        lemma_registered_ranges_disjoint(entries, i, k);
    }
}

/// In an ordered bus the ranges that begin at or below an address are the
/// first `rank` ones.
pub proof fn lemma_rank_splits<D>(entries: Registrations<D>, address: u64)
    requires
        ordered_disjoint(entries),
    ensures
        0 <= rank(entries, address) <= entries.len(),
        forall|i: int|
            0 <= i < entries.len() ==> ((#[trigger] entries[i]).0.base() <= address <==> i < rank(
                entries,
                address,
            )),
    decreases entries.len(),
{
    if entries.len() > 0 {
        let front = entries.drop_last();
        assert forall|i: int| 0 <= i < front.len() implies (#[trigger] front[i]).0.valid() by {
            assert(front[i] == entries[i]);
        }
        assert forall|i: int, j: int| 0 <= i < j < front.len() implies (#[trigger] front[i]).0.end() <= (
        #[trigger] front[j]).0.base() by {
            assert(front[i] == entries[i]);
            assert(front[j] == entries[j]);
        }
        lemma_rank_splits(front, address);
        let n = entries.len() - 1;
        assert forall|i: int| 0 <= i < entries.len() implies ((#[trigger] entries[i]).0.base() <= address <==> i
            < rank(entries, address)) by {
            if i < n {
                assert(front[i] == entries[i]);
                if entries[n].0.base() <= address {
                    assert(entries[i].0.end() <= entries[n].0.base());
                    assert(entries[i].0.valid());
                }
            } else {
                if !(entries[n].0.base() <= address) {
                    if rank(front, address) == n && n > 0 {
                        assert(front[n - 1] == entries[n - 1]);
                        assert(entries[n - 1].0.end() <= entries[n].0.base());
                        assert(entries[n - 1].0.valid());
                    }
                } else {
                    if rank(front, address) < n {
                        let k = rank(front, address);
                        assert(front[k] == entries[k]);
                        assert(entries[k].0.end() <= entries[n].0.base());
                        assert(entries[k].0.valid());
                    }
                }
            }
        }
    }
}

/// An address-range router over registered devices.
///
/// The bus owns one device value per registered range. A device that is to
/// answer on several ranges is registered once per range, through a handle
/// type of the caller's choosing that implements [`BusDevice`].
pub struct Bus<D: BusDevice> {
    entries: Vec<(AddressRange, D)>,
}

impl<D: BusDevice> View for Bus<D> {
    type V = Registrations<D>;

    /// The registrations in order of address.
    closed spec fn view(&self) -> Registrations<D> {
        self.entries@
    }
}

impl<D: BusDevice> Bus<D> {
    /// The invariant of a bus: its ranges are ordered and pairwise disjoint.
    pub open spec fn inv(&self) -> bool {
        ordered_disjoint(self@)
    }

    /// A bus with no device on it.
    pub fn new() -> (bus: Bus<D>)
        ensures
            bus.inv(),
            bus@.len() == 0,
    {
        Bus { entries: Vec::new() }
    }

    /// The number of registrations.
    pub fn len(&self) -> (n: usize)
        ensures
            n == self@.len(),
    {
        self.entries.len()
    }

    /// The range of the `index`-th registration in order of address, if
    /// there are that many.
    pub fn range_at(&self, index: usize) -> (range: Option<AddressRange>)
        ensures
            range == if index < self@.len() {
                Some(self@[index as int].0)
            } else {
                None
            },
    {
        if index < self.entries.len() {
            Some(self.entries[index].0)
        } else {
            None
        }
    }

    /// The device of the `index`-th registration in order of address, if
    /// there are that many.
    pub fn device_at(&self, index: usize) -> (device: Option<&D>)
        ensures
            device == if index < self@.len() {
                Some(&self@[index as int].1)
            } else {
                None
            },
    {
        if index < self.entries.len() {
            Some(&self.entries[index].1)
        } else {
            None
        }
    }

    /// Binary search for the number of ranges that begin at or below
    /// `address`.
    fn upper_bound(&self, address: u64) -> (p: usize)
        requires
            self.inv(),
        ensures
            p == rank(self@, address),
            p <= self@.len(),
            forall|i: int| 0 <= i < self@.len() ==> ((#[trigger] self@[i]).0.base() <= address <==> i < p),
    {
        proof {
            lemma_rank_splits(self@, address);
        }
        let mut low: usize = 0;
        let mut high: usize = self.entries.len();
        while low < high
            invariant
                self.inv(),
                0 <= low <= high <= self@.len(),
                low <= rank(self@, address) <= high,
                forall|i: int|
                    0 <= i < self@.len() ==> ((#[trigger] self@[i]).0.base() <= address <==> i < rank(
                        self@,
                        address,
                    )),
            decreases high - low,
        {
            let mid: usize = low + (high - low) / 2;
            if self.entries[mid].0.base() <= address {
                low = mid + 1;
            } else {
                high = mid;
            }
        }
        low
    }

    /// The place of the range that holds `address`, if one does.
    pub fn find(&self, address: u64) -> (place: Option<usize>)
        requires
            self.inv(),
        ensures
            match place {
                Some(i) => i < self@.len() && self@[i as int].0.contains(address) && i == owner(
                    self@,
                    address,
                ),
                None => forall|i: int| 0 <= i < self@.len() ==> !(#[trigger] self@[i]).0.contains(address),
            },
    {
        let p: usize = self.upper_bound(address);
        if p == 0 {
            return None;
        }
        let range: AddressRange = self.entries[p - 1].0;
        if address <= range.last() {
            proof {
                lemma_owner_unique(self@, address, p - 1);
            }
            Some(p - 1)
        } else {
            assert forall|i: int| 0 <= i < self@.len() implies !(#[trigger] self@[i]).0.contains(address) by {
                if i < p - 1 {
                    assert(self@[i].0.end() <= self@[p - 1].0.base());
                    assert(self@[p - 1].0.valid());
                }
            }
            None
        }
    }

    /// Registers `device` over `range`.
    ///
    /// Fails with `Overlap`, and leaves the bus as it was, exactly where
    /// `range` shares an address with a range already registered. Otherwise
    /// the registration takes its place in order of address.
    pub fn register(&mut self, range: AddressRange, device: D) -> (result: Result<(), BusError>)
        requires
            old(self).inv(),
        ensures
            final(self).inv(),
            match result {
                Ok(()) => !any_intersects(old(self)@, range) && final(self)@ == old(self)@.insert(
                    rank(old(self)@, range.base()),
                    (range, device),
                ),
                Err(e) => e == BusError::Overlap && any_intersects(old(self)@, range) && final(self)@
                    == old(self)@,
            },
    {
        let last: u64 = range.last();
        let p: usize = self.upper_bound(range.base());
        if p > 0 && self.entries[p - 1].0.last() >= range.base() {
            assert(self@[p - 1].0.intersects(range));
            return Err(BusError::Overlap);
        }
        if p < self.entries.len() && self.entries[p].0.base() <= last {
            assert(self@[p as int].0.intersects(range));
            return Err(BusError::Overlap);
        }
        proof {
            let entries = self@;
            assert forall|i: int| 0 <= i < entries.len() implies !(#[trigger] entries[i]).0.intersects(
                range,
            ) by {
                assert(entries[i].0.valid());
                if i < p {
                    if i < p - 1 {
                        assert(entries[i].0.end() <= entries[p - 1].0.base());
                        assert(entries[p - 1].0.valid());
                    }
                } else if i > p {
                    assert(entries[p as int].0.end() <= entries[i].0.base());
                    assert(entries[p as int].0.valid());
                }
            }
            let after = entries.insert(p as int, (range, device));
            assert forall|i: int| 0 <= i < after.len() implies (#[trigger] after[i]).0.valid() by {
                if i < p {
                    assert(after[i] == entries[i]);
                } else if i > p {
                    assert(after[i] == entries[i - 1]);
                }
            }
            assert forall|i: int, j: int| 0 <= i < j < after.len() implies (#[trigger] after[i]).0.end() <= (
            #[trigger] after[j]).0.base() by {
                if i < p {
                    assert(after[i] == entries[i]);
                } else if i > p {
                    assert(after[i] == entries[i - 1]);
                }
                if j < p {
                    assert(after[j] == entries[j]);
                } else if j > p {
                    assert(after[j] == entries[j - 1]);
                }
                if i == p {
                    assert(entries[p as int].0.end() <= entries[j - 1].0.base() || j - 1 == p);
                    assert(entries[j - 1].0.valid());
                    assert(entries[p as int].0.valid());
                } else if j == p {
                    assert(entries[i].0.end() <= entries[p - 1].0.base() || i == p - 1);
                    assert(entries[p - 1].0.valid());
                }
            }
        }
        self.entries.insert(p, (range, device));
        Ok(())
    }

    /// Hands a guest read of `data.len()` bytes at `address` to the device
    /// that owns the address, at the offset of `address` within its range.
    ///
    /// Fails with `NoDeviceAt(address)` where no range holds `address` or
    /// the access runs past the end of the range that does; no device is
    /// touched then, and `data` is left as it was.
    pub fn dispatch_read(&mut self, address: u64, data: &mut [u8]) -> (result: Result<(), BusError>)
        requires
            old(self).inv(),
        ensures
            final(self).inv(),
            final(data)@.len() == old(data)@.len(),
            final(self)@.len() == old(self)@.len(),
            forall|i: int| 0 <= i < old(self)@.len() ==> (#[trigger] final(self)@[i]).0 == old(self)@[i].0,
            match result {
                Ok(()) => {
                    let i = owner(old(self)@, address);
                    &&& claimed(old(self)@, address, old(data)@.len())
                    &&& 0 <= i < old(self)@.len()
                    &&& old(self)@[i].0.covers(address, old(data)@.len())
                    &&& D::read_effect(
                        old(self)@[i].1,
                        (address - old(self)@[i].0.base()) as u64,
                        old(data)@,
                        final(self)@[i].1,
                        final(data)@,
                    )
                    &&& forall|j: int|
                        0 <= j < old(self)@.len() && j != i ==> (#[trigger] final(self)@[j]) == old(self)@[j]
                },
                Err(e) => {
                    &&& e == BusError::NoDeviceAt(address)
                    &&& !claimed(old(self)@, address, old(data)@.len())
                    &&& final(self)@ == old(self)@
                    &&& final(data)@ == old(data)@
                },
            },
    {
        match self.resolve(address, data.len()) {
            Some((i, offset)) => {
                self.entries[i].1.read(offset, data);
                proof {
                    let before = old(self)@;
                    let after = self@;
                    assert forall|a: int, b: int| 0 <= a < b < after.len() implies (#[trigger] after[a]).0.end()
                        <= (#[trigger] after[b]).0.base() by {
                        assert(after[a].0 == before[a].0);
                        assert(after[b].0 == before[b].0);
                    }
                    assert forall|a: int| 0 <= a < after.len() implies (#[trigger] after[a]).0.valid() by {
                        assert(after[a].0 == before[a].0);
                    }
                }
                Ok(())
            },
            None => Err(BusError::NoDeviceAt(address)),
        }
    }

    /// Hands a guest write of `data` at `address` to the device that owns
    /// the address, at the offset of `address` within its range.
    ///
    /// Fails with `NoDeviceAt(address)` where no range holds `address` or
    /// the access runs past the end of the range that does; no device is
    /// touched then.
    pub fn dispatch_write(&mut self, address: u64, data: &[u8]) -> (result: Result<(), BusError>)
        requires
            old(self).inv(),
        ensures
            final(self).inv(),
            final(self)@.len() == old(self)@.len(),
            forall|i: int| 0 <= i < old(self)@.len() ==> (#[trigger] final(self)@[i]).0 == old(self)@[i].0,
            match result {
                Ok(()) => {
                    let i = owner(old(self)@, address);
                    &&& claimed(old(self)@, address, data@.len())
                    &&& 0 <= i < old(self)@.len()
                    &&& old(self)@[i].0.covers(address, data@.len())
                    &&& D::write_effect(
                        old(self)@[i].1,
                        (address - old(self)@[i].0.base()) as u64,
                        data@,
                        final(self)@[i].1,
                    )
                    &&& forall|j: int|
                        0 <= j < old(self)@.len() && j != i ==> (#[trigger] final(self)@[j]) == old(self)@[j]
                },
                Err(e) => {
                    &&& e == BusError::NoDeviceAt(address)
                    &&& !claimed(old(self)@, address, data@.len())
                    &&& final(self)@ == old(self)@
                },
            },
    {
        match self.resolve(address, data.len()) {
            Some((i, offset)) => {
                self.entries[i].1.write(offset, data);
                proof {
                    let before = old(self)@;
                    let after = self@;
                    assert forall|a: int, b: int| 0 <= a < b < after.len() implies (#[trigger] after[a]).0.end()
                        <= (#[trigger] after[b]).0.base() by {
                        assert(after[a].0 == before[a].0);
                        assert(after[b].0 == before[b].0);
                    }
                    assert forall|a: int| 0 <= a < after.len() implies (#[trigger] after[a]).0.valid() by {
                        assert(after[a].0 == before[a].0);
                    }
                }
                Ok(())
            },
            None => Err(BusError::NoDeviceAt(address)),
        }
    }

    /// Resolves an access of `len` bytes at `address` to the place of the
    /// registration that holds all of it and the offset of `address` within
    /// that range; `None` where no registration holds all of the access.
    pub fn resolve(&self, address: u64, len: usize) -> (target: Option<(usize, u64)>)
        requires
            self.inv(),
        ensures
            target is Some <==> claimed(self@, address, len as nat),
            target matches Some((i, offset)) ==> {
                &&& i < self@.len()
                &&& i == owner(self@, address)
                &&& self@[i as int].0.covers(address, len as nat)
                &&& offset == address - self@[i as int].0.base()
            },
    {
        match self.find(address) {
            Some(i) => {
                let range: AddressRange = self.entries[i].0;
                let offset: u64 = address - range.base();
                if len as u64 <= range.length() - offset {
                    Some((i, offset))
                } else {
                    assert forall|k: int| 0 <= k < self@.len() implies !(#[trigger] self@[k]).0.covers(
                        address,
                        len as nat,
                    ) by {
                        if self@[k].0.contains(address) {
                            lemma_owner_unique(self@, address, k);
                        }
                    }
                    None
                }
            },
            None => None,
        }
    }
}

} // verus!
