//! Which adapter of Windows leads to a phone.
use crate::bytes;
use crate::bytes::{push_bytes, push_u16, push_u32, to_array};
use crate::tether::address;
use crate::tether::address::{usable_prefix, Address, TetherPrefix, TetherSnapshot};
use crate::tether::identity;
use crate::tether::identity::adapter_is_tether;
use crate::text;
use vstd::prelude::*;

verus! {

/// An address of an adapter, with the length of its prefix.
#[derive(Clone, Copy, Debug, PartialEq, Eq, Structural)]
pub struct OnLink {
    pub address: Address,
    pub prefix_length: u8,
}

/// An adapter as the system lists it.
#[derive(Debug)]
pub struct AdapterEntry {
    pub interface_index: u32,
    pub description: String,
    pub friendly_name: String,
    pub up: bool,
    pub addresses: Vec<OnLink>,
}

impl AdapterEntry {
    /// An adapter that is up and says that it is the tether of a phone.
    pub open spec fn is_tether(self) -> bool {
        &&& self.interface_index != 0
        &&& self.up
        &&& identity::tether_label(
            text::lowered(self.description@ + " "@ + self.friendly_name@),
        )
    }

    fn says_tether(&self) -> (tether: bool)
        ensures
            tether == self.is_tether(),
    {
        self.interface_index != 0 && self.up && adapter_is_tether(
            self.description.as_str(),
            self.friendly_name.as_str(),
        )
    }
}

/// Whether an interface is among those of the chosen entries.
pub open spec fn is_chosen(entries: Seq<AdapterEntry>, chosen: Seq<usize>, index: u32) -> bool {
    exists|i: int|
        0 <= i < chosen.len() && entries[#[trigger] chosen[i] as int].interface_index == index
}

/// The tethers among the first `count` entries; of an interface that is listed more than
/// once, the first entry.
pub open spec fn tethers_of(entries: Seq<AdapterEntry>, count: nat) -> Seq<usize>
    decreases count,
{
    if count == 0 {
        seq![]
    } else {
        let front = tethers_of(entries, (count - 1) as nat);
        let entry = entries[count - 1];
        if entry.is_tether() && !is_chosen(entries, front, entry.interface_index) {
            front.push((count - 1) as usize)
        } else {
            front
        }
    }
}

/// The tethers among the adapters.
pub fn tether_adapters(entries: &Vec<AdapterEntry>) -> (chosen: Vec<usize>)
    ensures
        chosen@ == tethers_of(entries@, entries@.len()),
        forall|i: int| 0 <= i < chosen@.len() ==> #[trigger] chosen@[i] < entries@.len(),
{
    let mut chosen: Vec<usize> = Vec::new();
    let mut i: usize = 0;
    while i < entries.len()
        invariant
            i <= entries@.len(),
            chosen@ == tethers_of(entries@, i as nat),
            forall|j: int| 0 <= j < chosen@.len() ==> #[trigger] chosen@[j] < i,
        decreases entries@.len() - i,
    {
        if entries[i].says_tether() {
            let index: u32 = entries[i].interface_index;
            let mut k: usize = 0;
            while k < chosen.len() && entries[chosen[k]].interface_index != index
                invariant
                    k <= chosen@.len(),
                    i < entries@.len(),
                    forall|j: int| 0 <= j < chosen@.len() ==> #[trigger] chosen@[j] < i,
                    forall|j: int|
                        0 <= j < k ==> entries@[#[trigger] chosen@[j] as int].interface_index
                            != index,
                decreases chosen@.len() - k,
            {
                k = k + 1;
            }
            if k == chosen.len() {
                chosen.push(i);
            } else {
                assert(is_chosen(entries@, chosen@, index)) by {
                    assert(entries@[chosen@[k as int] as int].interface_index == index);
                }
            }
        }
        i = i + 1;
    }
    chosen
}

/// The prefixes, among the first `count` addresses of an interface, of tethers.
pub open spec fn prefixes_of(index: u32, addresses: Seq<OnLink>, count: nat) -> Seq<TetherPrefix>
    decreases count,
{
    if count == 0 {
        seq![]
    } else {
        let front = prefixes_of(index, addresses, (count - 1) as nat);
        let last = addresses[count - 1];
        if address::usable(last.address, last.prefix_length) {
            front.push(
                TetherPrefix {
                    interface_index: index,
                    address: last.address,
                    prefix_length: last.prefix_length,
                },
            )
        } else {
            front
        }
    }
}

/// The prefixes of the first `count` chosen entries.
pub open spec fn all_prefixes(
    entries: Seq<AdapterEntry>,
    chosen: Seq<usize>,
    count: nat,
) -> Seq<TetherPrefix>
    decreases count,
{
    if count == 0 {
        seq![]
    } else {
        let entry = entries[chosen[count - 1] as int];
        all_prefixes(entries, chosen, (count - 1) as nat) + prefixes_of(
            entry.interface_index,
            entry.addresses@,
            entry.addresses@.len(),
        )
    }
}

/// The prefixes over which a phone can be reached.
pub fn tether_snapshot(entries: &Vec<AdapterEntry>) -> (snapshot: TetherSnapshot)
    ensures
        ({
            let chosen = tethers_of(entries@, entries@.len());
            snapshot.prefixes@ == all_prefixes(entries@, chosen, chosen.len())
        }),
{
    let chosen: Vec<usize> = tether_adapters(entries);
    let mut prefixes: Vec<TetherPrefix> = Vec::new();
    let mut k: usize = 0;
    while k < chosen.len()
        invariant
            k <= chosen@.len(),
            forall|i: int| 0 <= i < chosen@.len() ==> #[trigger] chosen@[i] < entries@.len(),
            prefixes@ == all_prefixes(entries@, chosen@, k as nat),
        decreases chosen@.len() - k,
    {
        let entry: &AdapterEntry = &entries[chosen[k]];
        let ghost before = prefixes@;
        let mut i: usize = 0;
        assert(prefixes@ =~= before + prefixes_of(entry.interface_index, entry.addresses@, 0));
        while i < entry.addresses.len()
            invariant
                i <= entry.addresses@.len(),
                prefixes@ == before + prefixes_of(
                    entry.interface_index,
                    entry.addresses@,
                    i as nat,
                ),
            decreases entry.addresses@.len() - i,
        {
            let on_link: OnLink = entry.addresses[i];
            if usable_prefix(on_link.address, on_link.prefix_length) {
                prefixes.push(
                    TetherPrefix {
                        interface_index: entry.interface_index,
                        address: on_link.address,
                        prefix_length: on_link.prefix_length,
                    },
                );
            }
            i = i + 1;
            assert(prefixes@ =~= before + prefixes_of(
                entry.interface_index,
                entry.addresses@,
                i as nat,
            ));
        }
        k = k + 1;
    }
    TetherSnapshot { prefixes }
}

impl TetherSnapshot {
    /// The interface that leads to a peer, where the system sends to the peer over the same one.
    pub fn confirmed_interface(&self, peer: Address, best: u32) -> (interface: Option<u32>)
        ensures
            match interface {
                Some(index) => index == best && (exists|i: int|
                    0 <= i < self.prefixes@.len() && (#[trigger] self.prefixes@[i]).holds(peer)) && forall|i: int|
                    0 <= i < self.prefixes@.len() && (#[trigger] self.prefixes@[i]).holds(peer)
                        ==> self.prefixes@[i].interface_index == best,
                None => (forall|i: int|
                    0 <= i < self.prefixes@.len() ==> !(#[trigger] self.prefixes@[i]).holds(peer)) || (exists|
                    i: int,
                |
                    0 <= i < self.prefixes@.len() && (#[trigger] self.prefixes@[i]).holds(peer)
                        && self.prefixes@[i].interface_index != best),
            },
    {
        match self.classify_peer(peer) {
            Some(index) => if index == best {
                Some(index)
            } else {
                None
            },
            None => None,
        }
    }
}

/// The bytes of a GUID, as it is kept: the three numbers in little-endian order, then the
/// rest.
pub fn guid_bytes(data1: u32, data2: u16, data3: u16, data4: [u8; 8]) -> (guid: [u8; 16])
    ensures
        guid@ == bytes::le_bytes(data1 as nat, 4) + bytes::le_bytes(data2 as nat, 2)
            + bytes::le_bytes(data3 as nat, 2) + data4@,
{
    let mut guid: Vec<u8> = Vec::new();
    push_u32(&mut guid, data1);
    push_u16(&mut guid, data2);
    push_u16(&mut guid, data3);
    push_bytes(&mut guid, &data4);
    proof {
        bytes::le_bytes_width(data1 as nat, 4);
        bytes::le_bytes_width(data2 as nat, 2);
        bytes::le_bytes_width(data3 as nat, 2);
    }
    to_array(guid.as_slice())
}

/// Whatever prefix a phone is reached over belongs to an adapter that is up and says that it
/// is the tether of a phone.
pub proof fn prefixes_belong_to_tethers(entries: Seq<AdapterEntry>, at: int)
    requires
        entries.len() <= usize::MAX,
        ({
            let chosen = tethers_of(entries, entries.len());
            0 <= at < all_prefixes(entries, chosen, chosen.len()).len()
        }),
    ensures
        ({
            let chosen = tethers_of(entries, entries.len());
            let prefix = all_prefixes(entries, chosen, chosen.len())[at];
            exists|i: int|
                0 <= i < entries.len() && (#[trigger] entries[i]).is_tether()
                    && entries[i].interface_index == prefix.interface_index
        }),
{
    let chosen = tethers_of(entries, entries.len());
    first_prefixes_belong_to_tethers(entries, chosen.len(), at);
}

proof fn first_prefixes_belong_to_tethers(entries: Seq<AdapterEntry>, chosen: nat, at: int)
    requires
        entries.len() <= usize::MAX,
        chosen <= tethers_of(entries, entries.len()).len(),
        0 <= at < all_prefixes(entries, tethers_of(entries, entries.len()), chosen).len(),
    ensures
        exists|i: int|
            0 <= i < entries.len() && (#[trigger] entries[i]).is_tether()
                && entries[i].interface_index == all_prefixes(
                entries,
                tethers_of(entries, entries.len()),
                chosen,
            )[at].interface_index,
    decreases chosen,
{
    let tethers = tethers_of(entries, entries.len());
    let front = all_prefixes(entries, tethers, (chosen - 1) as nat);
    if at < front.len() {
        first_prefixes_belong_to_tethers(entries, (chosen - 1) as nat, at);
    } else {
        chosen_are_tethers(entries, entries.len());
        let entry = entries[tethers[chosen - 1] as int];
        prefixes_are_of_the_interface(
            entry.interface_index,
            entry.addresses@,
            entry.addresses@.len(),
        );
        assert(entry.is_tether());
    }
}

proof fn chosen_are_tethers(entries: Seq<AdapterEntry>, count: nat)
    requires
        count <= entries.len() <= usize::MAX,
    ensures
        forall|i: int|
            0 <= i < tethers_of(entries, count).len() ==> {
                let at = #[trigger] tethers_of(entries, count)[i];
                at < count && entries[at as int].is_tether()
            },
    decreases count,
{
    if count > 0 {
        chosen_are_tethers(entries, (count - 1) as nat);
        let front = tethers_of(entries, (count - 1) as nat);
        assert forall|i: int| 0 <= i < tethers_of(entries, count).len() implies {
            let at = #[trigger] tethers_of(entries, count)[i];
            at < count && entries[at as int].is_tether()
        } by {
            if i < front.len() {
                assert(tethers_of(entries, count)[i] == front[i]);
            }
        }
    }
}

proof fn prefixes_are_of_the_interface(index: u32, addresses: Seq<OnLink>, count: nat)
    ensures
        forall|i: int|
            0 <= i < prefixes_of(index, addresses, count).len() ==> (#[trigger] prefixes_of(
                index,
                addresses,
                count,
            )[i]).interface_index == index,
    decreases count,
{
    if count > 0 {
        prefixes_are_of_the_interface(index, addresses, (count - 1) as nat);
        let front = prefixes_of(index, addresses, (count - 1) as nat);
        let all = prefixes_of(index, addresses, count);
        assert forall|i: int| 0 <= i < all.len() implies (#[trigger] all[i]).interface_index
            == index by {
            if i < front.len() {
                assert(all[i] == front[i]);
            }
        }
    }
}

/// Every adapter that is up, has an index and says that it is a tether is chosen, unless an
/// earlier one of them stands for the same interface; nothing else is, and nothing twice.
pub proof fn tethers_are_chosen_once(entries: Seq<AdapterEntry>, count: nat, at: int)
    requires
        count <= entries.len() <= usize::MAX,
        0 <= at < count,
    ensures
        tethers_of(entries, count).contains(at as usize) == (entries[at].up
            && entries[at].interface_index != 0 && identity::tether_label(
            text::lowered(entries[at].description@ + " "@ + entries[at].friendly_name@),
        ) && forall|earlier: int|
            0 <= earlier < at && (#[trigger] entries[earlier]).is_tether()
                ==> entries[earlier].interface_index != entries[at].interface_index),
        forall|i: int, j: int|
            0 <= i < j < tethers_of(entries, count).len() ==> #[trigger] tethers_of(
                entries,
                count,
            )[i] < #[trigger] tethers_of(entries, count)[j],
    decreases count,
{
    let front = tethers_of(entries, (count - 1) as nat);
    let all = tethers_of(entries, count);
    chosen_are_tethers(entries, (count - 1) as nat);
    chosen_are_tethers(entries, count);
    if count > 1 {
        tethers_are_chosen_once(
            entries,
            (count - 1) as nat,
            if at < count - 1 {
                at
            } else {
                0
            },
        );
    }
    assert forall|i: int, j: int| 0 <= i < j < all.len() implies #[trigger] all[i]
        < #[trigger] all[j] by {
        assert(all[i] == front[i]);
        if j < front.len() {
            assert(all[j] == front[j]);
        }
    }
    if at < count - 1 {
        if front.contains(at as usize) {
            let k = choose|k: int| 0 <= k < front.len() && front[k] == at as usize;
            assert(all[k] == at as usize);
        }
        if all.contains(at as usize) {
            let k = choose|k: int| 0 <= k < all.len() && all[k] == at as usize;
            assert(k < front.len());
            assert(front[k] == at as usize);
        }
    } else {
        let entry = entries[at];
        interfaces_are_represented(entries, at as nat, entry.interface_index);
        if all.contains(at as usize) {
            let k = choose|k: int| 0 <= k < all.len() && all[k] == at as usize;
            if k < front.len() {
                assert(all[k] == front[k]);
            }
        } else if entry.is_tether() && !is_chosen(entries, front, entry.interface_index) {
            assert(all.last() == at as usize);
        }
    }
}

/// An interface is chosen exactly where one of the entries is a tether on it.
proof fn interfaces_are_represented(entries: Seq<AdapterEntry>, count: nat, index: u32)
    requires
        count <= entries.len() <= usize::MAX,
    ensures
        is_chosen(entries, tethers_of(entries, count), index) == exists|i: int|
            0 <= i < count && (#[trigger] entries[i]).is_tether() && entries[i].interface_index
                == index,
    decreases count,
{
    let all = tethers_of(entries, count);
    chosen_are_tethers(entries, count);
    if is_chosen(entries, all, index) {
        let k = choose|k: int|
            0 <= k < all.len() && entries[#[trigger] all[k] as int].interface_index == index;
        assert(entries[all[k] as int].is_tether());
    }
    if count > 0 {
        let front = tethers_of(entries, (count - 1) as nat);
        interfaces_are_represented(entries, (count - 1) as nat, index);
        interfaces_are_represented(entries, (count - 1) as nat, entries[count - 1].interface_index);
        if is_chosen(entries, front, index) {
            let k = choose|k: int|
                0 <= k < front.len() && entries[#[trigger] front[k] as int].interface_index
                    == index;
            assert(all[k] == front[k]);
        }
        if entries[count - 1].is_tether() && entries[count - 1].interface_index == index
            && !is_chosen(entries, front, index) {
            assert(all[all.len() - 1] == count - 1);
        }
    }
}

/// Of the addresses of a chosen adapter every usable one gives a prefix, as it stands there.
pub proof fn usable_addresses_are_kept(index: u32, addresses: Seq<OnLink>, count: nat, at: int)
    requires
        0 <= at < count <= addresses.len(),
        address::tether_prefix(addresses[at].address, addresses[at].prefix_length),
    ensures
        prefixes_of(index, addresses, count).contains(
            TetherPrefix {
                interface_index: index,
                address: addresses[at].address,
                prefix_length: addresses[at].prefix_length,
            },
        ),
    decreases count,
{
    address::tethers_are_local(addresses[at].address, addresses[at].prefix_length);
    let wanted = TetherPrefix {
        interface_index: index,
        address: addresses[at].address,
        prefix_length: addresses[at].prefix_length,
    };
    let all = prefixes_of(index, addresses, count);
    if at == count - 1 {
        assert(all.last() == wanted);
    } else {
        usable_addresses_are_kept(index, addresses, (count - 1) as nat, at);
        let front = prefixes_of(index, addresses, (count - 1) as nat);
        let k = choose|k: int| 0 <= k < front.len() && front[k] == wanted;
        assert(all[k] == wanted);
    }
}

} // verus!
