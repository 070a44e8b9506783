//! The state that all rooms share.

use vstd::prelude::*;

use crate::name_map::NameMap;
use crate::peer_manager::PeerManager;
use crate::route_model::GroupView;

verus! {

/// All state that must survive the hibernation of a room. `C` is the host's peer centre.
#[derive(Debug)]
pub struct GlobalState<C> {
    pub peer_manager: PeerManager,
    /// The peer centre of each group.
    pub peer_center_map: NameMap<C>,
    /// The digest that each network is known by.
    pub network_digest_registry: NameMap<String>,
}

impl<C> GlobalState<C> {
    /// Whether nothing has happened yet: there are no groups, no peer centres and no networks.
    pub open spec fn is_blank(self) -> bool {
        &&& self.peer_manager.route_state@ == Map::<Seq<char>, GroupView>::empty()
        &&& self.peer_center_map@ == Map::<Seq<char>, C>::empty()
        &&& self.network_digest_registry@ == Map::<Seq<char>, String>::empty()
    }

    /// The state before anything happened.
    pub fn new() -> (r: Self)
        ensures
            r.is_blank(),
    {
        GlobalState {
            peer_manager: PeerManager::new(),
            peer_center_map: NameMap::new(),
            network_digest_registry: NameMap::new(),
        }
    }
}

/// Get or initialize the global state that is kept in `slot`: what is there is handed out as it is,
/// and only an empty slot gets a new state. What the caller makes of the state is what `slot` keeps.
pub fn global_state<C>(slot: &mut Option<GlobalState<C>>) -> (r: &mut GlobalState<C>)
    ensures
        match *old(slot) {
            Some(kept) => *r == kept,
            None => (*r).is_blank(),
        },
        *final(slot) == Some(*final(r)),
{
    if slot.is_none() {
        *slot = Some(GlobalState::new());
    }
    match slot {
        Some(state) => state,
        None => vstd::pervasive::unreached(),
    }
}

} // verus!
