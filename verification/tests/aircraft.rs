use above_me::aircraft::{Aircraft, AircraftType};
use above_me::registry::Registry;

fn aircraft(model: &str) -> Aircraft {
    Aircraft {
        id: String::from("AB1234"),
        call_sign: String::from("G1"),
        registration: String::from("D-6507"),
        model: String::from(model),
        visible: true,
    }
}

#[test]
fn has_model_tells_an_empty_model_apart() {
    assert!(aircraft("ASK-21").has_model());
    assert!(!aircraft("").has_model());
}

#[test]
fn with_model_changes_the_model_only() {
    let changed = aircraft("").with_model(String::from("ASK-21"));
    assert!(changed.has_model());
    assert_eq!(changed.model, "ASK-21");
    assert_eq!(changed.id, "AB1234");
    assert_eq!(changed.call_sign, "G1");
    assert_eq!(changed.registration, "D-6507");
    assert!(changed.visible);
}

#[test]
fn from_aprs_u8_knows_thirteen_kinds() {
    assert_eq!(AircraftType::from_aprs_u8(0), None);
    assert_eq!(AircraftType::from_aprs_u8(1), Some(AircraftType::Glider));
    assert_eq!(AircraftType::from_aprs_u8(2), Some(AircraftType::Tow));
    assert_eq!(AircraftType::from_aprs_u8(3), Some(AircraftType::Helicopter));
    assert_eq!(AircraftType::from_aprs_u8(4), Some(AircraftType::SkyDiver));
    assert_eq!(AircraftType::from_aprs_u8(5), Some(AircraftType::DropPlane));
    assert_eq!(AircraftType::from_aprs_u8(6), Some(AircraftType::HangGlider));
    assert_eq!(AircraftType::from_aprs_u8(7), Some(AircraftType::Paraglider));
    assert_eq!(AircraftType::from_aprs_u8(8), Some(AircraftType::MotorAircraft));
    assert_eq!(AircraftType::from_aprs_u8(9), Some(AircraftType::Jet));
    assert_eq!(AircraftType::from_aprs_u8(10), None);
    assert_eq!(AircraftType::from_aprs_u8(11), Some(AircraftType::Balloon));
    assert_eq!(AircraftType::from_aprs_u8(12), Some(AircraftType::Blimp));
    assert_eq!(AircraftType::from_aprs_u8(13), Some(AircraftType::Unmanned));
    assert_eq!(AircraftType::from_aprs_u8(14), None);
    assert_eq!(AircraftType::from_aprs_u8(15), Some(AircraftType::Obstacle));
    for code in 16..=255u8 {
        assert_eq!(AircraftType::from_aprs_u8(code), None);
    }
}

#[test]
fn get_name_gives_the_english_name() {
    assert_eq!(AircraftType::Glider.get_name(), "(Motor) Glider");
    assert_eq!(AircraftType::Tow.get_name(), "Tow plane");
    assert_eq!(AircraftType::Helicopter.get_name(), "Helicopter / Gyrocopter");
    assert_eq!(AircraftType::SkyDiver.get_name(), "Skydiver / Parachute");
    assert_eq!(AircraftType::DropPlane.get_name(), "Drop plane");
    assert_eq!(AircraftType::HangGlider.get_name(), "Hang glider");
    assert_eq!(AircraftType::Paraglider.get_name(), "Paraglider");
    assert_eq!(AircraftType::MotorAircraft.get_name(), "Motor aircaft");
    assert_eq!(AircraftType::Jet.get_name(), "Jet");
    assert_eq!(AircraftType::Balloon.get_name(), "Balloon");
    assert_eq!(AircraftType::Blimp.get_name(), "Blimp");
    assert_eq!(AircraftType::Unmanned.get_name(), "Unmanned (Drone)");
    assert_eq!(AircraftType::Obstacle.get_name(), "Obstacle");
}

#[test]
fn registry_finds_the_last_entry_of_an_identifier() {
    let mut registry = Registry::new();
    assert!(registry.get(&String::from("AB1234")).is_none());

    registry.insert(aircraft("ASK-21"));
    registry.insert(Aircraft {
        id: String::from("CD5678"),
        ..aircraft("LS 4")
    });
    assert_eq!(registry.get(&String::from("AB1234")).unwrap().model, "ASK-21");
    assert_eq!(registry.get(&String::from("CD5678")).unwrap().model, "LS 4");

    registry.insert(aircraft("Discus"));
    assert_eq!(registry.get(&String::from("AB1234")).unwrap().model, "Discus");
    assert_eq!(registry.get(&String::from("CD5678")).unwrap().model, "LS 4");
    assert!(registry.get(&String::from("ab1234")).is_none());
}
