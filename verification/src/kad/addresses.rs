//! The addresses of a peer in the routing table.

use libp2p_core::Multiaddr;
use vstd::prelude::*;

use crate::assoc::add_item;
use crate::assoc::contains;
use crate::assoc::first_index;
use crate::assoc::lemma_first_index;
use crate::assoc::position_of;
use crate::assoc::remove_item;
use crate::assoc::with_item;
use crate::assoc::without_item;
use crate::assoc::Ident;

verus! {

/// A list of addresses that is never empty.
#[derive(Debug)]
pub struct Addresses {
    /// The addresses.
    pub addrs: Vec<Multiaddr>,
}

impl View for Addresses {
    type V = Seq<Multiaddr>;

    open spec fn view(&self) -> Seq<Multiaddr> {
        self.addrs@
    }
}

/// The addresses after `old` was replaced by `new`, in its first place.
pub open spec fn replaced(list: Seq<Multiaddr>, old_addr: Multiaddr, new_addr: Multiaddr) -> Seq<
    Multiaddr,
> {
    if list.contains(old_addr) {
        list.update(first_index(list, old_addr), new_addr)
    } else {
        list
    }
}

/// The addresses after `addr` was removed, which the last one never is.
pub open spec fn removed(list: Seq<Multiaddr>, addr: Multiaddr) -> Seq<Multiaddr> {
    if list =~= seq![addr] {
        list
    } else {
        without_item(list, addr)
    }
}

impl Addresses {
    /// Whether there is an address.
    pub open spec fn wf(&self) -> bool {
        self@.len() > 0
    }

    /// A list with one address.
    pub fn new(addr: Multiaddr) -> (r: Self)
        ensures
            r.wf(),
            r@ == seq![addr],
    {
        let mut addrs: Vec<Multiaddr> = Vec::new();
        addrs.push(addr);
        assert(addrs@ =~= seq![addr]);
        Addresses { addrs }
    }

    /// The first address.
    pub fn first(&self) -> (r: &Multiaddr)
        requires
            self.wf(),
        ensures
            *r == self@[0],
    {
        &self.addrs[0]
    }

    /// The number of addresses.
    pub fn len(&self) -> (r: usize)
        ensures
            r == self@.len(),
    {
        self.addrs.len()
    }

    /// The addresses as a plain list.
    pub fn into_vec(self) -> (r: Vec<Multiaddr>)
        ensures
            r == self.addrs,
    {
        self.addrs
    }

    /// A copy of the list.
    pub fn duplicate(&self) -> (r: Addresses)
        ensures
            r@ == self@,
    {
        let addrs = self.addrs.clone();
        assert(addrs@ =~= self.addrs@);
        Addresses { addrs }
    }

    /// Adds an address, and says whether it is new.
    pub fn insert(&mut self, addr: Multiaddr) -> (r: bool)
        requires
            old(self).wf(),
        ensures
            final(self).wf(),
            final(self)@ == with_item(old(self)@, addr),
            r == !old(self)@.contains(addr),
    {
        add_item(&mut self.addrs, addr)
    }

    /// Removes an address, unless it is the only one, which is an error.
    pub fn remove(&mut self, addr: &Multiaddr) -> (r: Result<(), ()>)
        requires
            old(self).wf(),
        ensures
            final(self).wf(),
            final(self)@ == removed(old(self)@, *addr),
            r is Err <==> old(self)@ =~= seq![*addr],
    {
        if self.addrs.len() == 1 && self.addrs[0].same(addr) {
            assert(self@ =~= seq![*addr]);
            return Err(());
        }
        proof {
            if self@ =~= seq![*addr] {
                assert(self@[0] == *addr);
            }
            if self@.len() == 1 {
                assert(!self@.contains(*addr));
            }
        }
        remove_item(&mut self.addrs, addr);
        Ok(())
    }

    /// Replaces the first occurrence of an address, and says whether there was one.
    pub fn replace(&mut self, old_addr: &Multiaddr, new_addr: &Multiaddr) -> (r: bool)
        requires
            old(self).wf(),
        ensures
            final(self).wf(),
            final(self)@ == replaced(old(self)@, *old_addr, *new_addr),
            r == old(self)@.contains(*old_addr),
    {
        match position_of(&self.addrs, old_addr) {
            Some(i) => {
                proof {
                    lemma_first_index(self.addrs@, *old_addr, i as int);
                }
                self.addrs[i] = new_addr.clone();
                true
            },
            None => false,
        }
    }
}

} // verus!
