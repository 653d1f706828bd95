//! The event bus and the kinds of event that travel on it.

pub mod dispatch;
pub mod event;
pub mod event_manager;
pub mod information;
pub mod listener;

pub use information::QuAvailableTypeInEvent;
pub use information::QuInformationData;

use vstd::prelude::*;
use vstd::std_specs::cmp::PartialEqSpec;
use vstd::std_specs::cmp::PartialEqSpecImpl;

verus! {

/// All the events of the application, by which the view and the model talk to
/// each other: every request has the result that answers it.
#[derive(Eq, Clone, Copy, Debug)]
pub enum QuEventType {
    /// Ask to retrieve musics from a directory
    EAskRetrieveMusicDirectory,
    /// Ask to retrieve the metadata of the music
    EAskRetrieveMusicInformation,
    /// Ask to play/pause/stop the music
    EAskReadMusic,
    /// Ask the creation/suppression/modification of a playlist
    EAskOperationPlaylist,
    /// Ask to retrieve a playlist or all the playlists
    EAskTryRetrievePlayList,
    /// Result of the scan of the directory
    EMusicDirectoryRetrieved,
    /// Result of the read of the metadata of the music
    EMusicInformationRetrieved,
    /// Result of the operation on the music
    EReadMusicState,
    /// Result of the operation applied to a playlist
    EOperationPlaylistState,
    /// Result of the retrieving of the playlist
    EPlaylistRetrieved,
}

impl QuEventType {
    /// The rank of the kind in the catalogue: requests first, then results.
    pub open spec fn spec_rank(self) -> u8 {
        match self {
            QuEventType::EAskRetrieveMusicDirectory => 0,
            QuEventType::EAskRetrieveMusicInformation => 1,
            QuEventType::EAskReadMusic => 2,
            QuEventType::EAskOperationPlaylist => 3,
            QuEventType::EAskTryRetrievePlayList => 4,
            QuEventType::EMusicDirectoryRetrieved => 5,
            QuEventType::EMusicInformationRetrieved => 6,
            QuEventType::EReadMusicState => 7,
            QuEventType::EOperationPlaylistState => 8,
            QuEventType::EPlaylistRetrieved => 9,
        }
    }

    /// The rank of the kind in the catalogue: requests first, then results.
    #[verifier::when_used_as_spec(spec_rank)]
    pub fn rank(self) -> (rank: u8)
        ensures
            rank == self.spec_rank(),
            rank < 10,
    {
        match self {
            QuEventType::EAskRetrieveMusicDirectory => 0,
            QuEventType::EAskRetrieveMusicInformation => 1,
            QuEventType::EAskReadMusic => 2,
            QuEventType::EAskOperationPlaylist => 3,
            QuEventType::EAskTryRetrievePlayList => 4,
            QuEventType::EMusicDirectoryRetrieved => 5,
            QuEventType::EMusicInformationRetrieved => 6,
            QuEventType::EReadMusicState => 7,
            QuEventType::EOperationPlaylistState => 8,
            QuEventType::EPlaylistRetrieved => 9,
        }
    }
}

impl PartialEq for QuEventType {
    fn eq(&self, other: &Self) -> (same: bool) {
        self.rank() == other.rank()
    }
}

impl PartialEqSpecImpl for QuEventType {
    open spec fn obeys_eq_spec() -> bool {
        true
    }

    open spec fn eq_spec(&self, other: &Self) -> bool {
        *self == *other
    }
}

/// Says of a type of event kinds that `==` on it tells exactly whether two
/// kinds are the same one. The bus compares kinds by `==` and by nothing
/// else, so this is all it asks of them.
pub open spec fn compares_by_value<EventType: PartialEq>() -> bool {
    &&& EventType::obeys_eq_spec()
    &&& forall|x: EventType, y: EventType| #[trigger] x.eq_spec(&y) <==> x == y
}

/// The kinds of the application compare by value.
pub proof fn lemma_event_types_compare_by_value()
    ensures
        compares_by_value::<QuEventType>(),
{
}

} // verus!
