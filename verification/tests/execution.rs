use price_action::execution::{Broker, PaperBroker, Position};

#[test]
fn paper_broker_tracks_position() {
    let mut broker = PaperBroker::new();
    assert_eq!(broker.position(), Position::Flat);
    broker.set_position(Position::Long).unwrap();
    assert_eq!(broker.position(), Position::Long);
    broker.set_position(Position::Flat).unwrap();
    assert_eq!(broker.position(), Position::Flat);
}

#[test]
fn default_position_is_flat() {
    assert_eq!(Position::default(), Position::Flat);
    assert_eq!(PaperBroker::default().position(), Position::Flat);
}

#[test]
fn move_to_sets_the_position() {
    let mut broker = PaperBroker::new();
    broker.move_to(Position::Short);
    assert_eq!(broker.position(), Position::Short);
}
