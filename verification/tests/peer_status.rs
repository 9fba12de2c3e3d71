use aquatic::common::AnnounceEvent;
use aquatic::common::NumberOfBytes;
use aquatic::common::PeerStatus;
use aquatic::common::PeerStatus::Leeching;
use aquatic::common::PeerStatus::Seeding;
use aquatic::common::PeerStatus::Stopped;

#[test]
fn test_peer_status_from_event_and_bytes_left() {
    let f = PeerStatus::from_event_and_bytes_left;

    assert_eq!(Stopped, f(AnnounceEvent::Stopped, NumberOfBytes(0)));
    assert_eq!(Stopped, f(AnnounceEvent::Stopped, NumberOfBytes(1)));

    assert_eq!(Seeding, f(AnnounceEvent::Started, NumberOfBytes(0)));
    assert_eq!(Leeching, f(AnnounceEvent::Started, NumberOfBytes(1)));

    assert_eq!(Seeding, f(AnnounceEvent::Completed, NumberOfBytes(0)));
    assert_eq!(Leeching, f(AnnounceEvent::Completed, NumberOfBytes(1)));

    assert_eq!(Seeding, f(AnnounceEvent::NoEvent, NumberOfBytes(0)));
    assert_eq!(Leeching, f(AnnounceEvent::NoEvent, NumberOfBytes(1)));
}
