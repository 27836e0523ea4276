//! The pass that resolves the index of each merged interface, one name at a time.

use crate::iface::{InterfaceView, NetworkInterface};
use vstd::prelude::*;

verus! {

/// The pass over a list of merged interfaces in which the caller looks up the
/// index of each interface by its name: `pending` names the interface whose
/// turn it is, `resolve` takes the index that was found for it.
pub struct IndexResolution {
    ifaces: Vec<NetworkInterface>,
    resolved: usize,
}

/// What an `IndexResolution` holds: the interfaces, and how many of them, from
/// the first on, have had their turn.
pub struct ResolutionView {
    pub ifaces: Seq<InterfaceView>,
    pub resolved: nat,
}

/// The pass after `index` was found for the interface whose turn it was. A
/// pass in which every interface has had its turn stays as it is.
pub open spec fn resolved_next(pass: ResolutionView, index: u32) -> ResolutionView {
    if pass.resolved < pass.ifaces.len() {
        let at = pass.resolved as int;
        ResolutionView {
            ifaces: pass.ifaces.update(at, InterfaceView { index, ..pass.ifaces[at] }),
            resolved: pass.resolved + 1,
        }
    } else {
        pass
    }
}

/// The list after a whole pass in which `indices[i]` was found for the `i`-th interface.
pub open spec fn resolved_all(list: Seq<InterfaceView>, indices: Seq<u32>) -> Seq<InterfaceView> {
    Seq::new(list.len(), |i: int| InterfaceView { index: indices[i], ..list[i] })
}

/// The pass after the first `n` of `indices` were supplied one after the other.
pub open spec fn resolved_steps(pass: ResolutionView, indices: Seq<u32>, n: nat) -> ResolutionView
    decreases n,
{
    if n == 0 {
        pass
    } else {
        resolved_next(resolved_steps(pass, indices, (n - 1) as nat), indices[n - 1])
    }
}

/// A pass that starts at `list` and is supplied one index for each interface
/// has given every interface its turn exactly once, in the order of the list,
/// and has changed nothing but the indices.
pub proof fn lemma_pass_resolves_each_once(list: Seq<InterfaceView>, indices: Seq<u32>, n: nat)
    requires
        indices.len() == list.len(),
        n <= list.len(),
    ensures
        resolved_steps(ResolutionView { ifaces: list, resolved: 0 }, indices, n).resolved == n,
        resolved_steps(ResolutionView { ifaces: list, resolved: 0 }, indices, n).ifaces
            == resolved_all(list, indices).take(n as int) + list.skip(n as int),
        n == list.len() ==> resolved_steps(
            ResolutionView { ifaces: list, resolved: 0 },
            indices,
            n,
        ).ifaces == resolved_all(list, indices),
    decreases n,
{
    let start = ResolutionView { ifaces: list, resolved: 0 };
    if n == 0 {
        assert(resolved_all(list, indices).take(0) + list.skip(0) == list);
    } else {
        lemma_pass_resolves_each_once(list, indices, (n - 1) as nat);
        let before = resolved_steps(start, indices, (n - 1) as nat);
        let after = resolved_steps(start, indices, n);
        assert(after.ifaces == resolved_all(list, indices).take(n as int) + list.skip(n as int));
    }
    if n == list.len() {
        assert(resolved_all(list, indices).take(n as int) + list.skip(n as int) == resolved_all(
            list,
            indices,
        ));
    }
}

impl View for IndexResolution {
    type V = ResolutionView;

    closed spec fn view(&self) -> ResolutionView {
        ResolutionView { ifaces: self.ifaces.deep_view(), resolved: self.resolved as nat }
    }
}

impl IndexResolution {
    #[verifier::type_invariant]
    spec fn in_range(self) -> bool {
        self.resolved <= self.ifaces@.len()
    }

    /// Starts the pass: no interface has had its turn.
    pub fn begin(ifaces: Vec<NetworkInterface>) -> (pass: IndexResolution)
        ensures
            pass@ == (ResolutionView { ifaces: ifaces.deep_view(), resolved: 0 }),
    {
        IndexResolution { ifaces, resolved: 0 }
    }

    /// The name of the interface whose turn it is, or `None` when every
    /// interface has had its turn.
    pub fn pending(&self) -> (name: Option<&String>)
        ensures
            self@.resolved <= self@.ifaces.len(),
            name is Some <==> self@.resolved < self@.ifaces.len(),
            name is Some ==> name.unwrap()@ == self@.ifaces[self@.resolved as int].name,
    {
        proof {
            use_type_invariant(self);
        }
        if self.resolved < self.ifaces.len() {
            Some(&self.ifaces[self.resolved].name)
        } else {
            None
        }
    }

    /// Records `index` as the index of the interface whose turn it is, and
    /// passes the turn to the next one.
    pub fn resolve(&mut self, index: u32)
        ensures
            final(self)@ == resolved_next(old(self)@, index),
    {
        proof {
            use_type_invariant(&*self);
        }
        if self.resolved < self.ifaces.len() {
            let at = self.resolved;
            self.ifaces[at].index = index;
            self.resolved = at + 1;
            assert(self@.ifaces =~= resolved_next(old(self)@, index).ifaces);
        }
    }

    /// Ends the pass and hands the interfaces back.
    pub fn finish(self) -> (ifaces: Vec<NetworkInterface>)
        ensures
            ifaces.deep_view() == self@.ifaces,
    {
        self.ifaces
    }
}

} // verus!
