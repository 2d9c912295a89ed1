use deeper::application::UnitStage;
use deeper::canvas::AnchorPoint;
use deeper::components::{Faction, FloorNumber, MapSwitcher, MapTransition};
use deeper::entity_smith::{Marker, Name};

#[test]
fn plain_components() {
    let n = Name::new("player".to_string());
    assert_eq!(n.to_string(), "player");
    let _ = Marker;
    assert_ne!(Faction::Enemies, Faction::Friends);
    let s = MapSwitcher(MapTransition::Deeper);
    assert_eq!(s.0, MapTransition::Deeper);
    assert_ne!(MapTransition::Stay, MapTransition::Deeper);
    assert_eq!(FloorNumber(3).0, 3);
    assert_ne!(UnitStage::Init, UnitStage::EndFrame);
    assert_ne!(AnchorPoint::TopLeft, AnchorPoint::BottomRight);
}

