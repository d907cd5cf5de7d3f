//! Aircraft and the kinds of aircraft that the feed tells apart.

use vstd::prelude::*;

verus! {

/// What is known of one aircraft. An empty `call_sign`, `registration` or
/// `model` stands for "unknown".
#[derive(Debug)]
pub struct Aircraft {
    /// Identifier in the registry and on the feed.
    pub id: String,
    /// Call sign, e.g. "G1".
    pub call_sign: String,
    /// Registration, e.g. "D-6507".
    pub registration: String,
    /// Model, e.g. "ASK-21".
    pub model: String,
    /// Whether the aircraft may be identified and tracked.
    pub visible: bool,
}

/// The mathematical value of an [`Aircraft`].
pub struct AircraftView {
    pub id: Seq<char>,
    pub call_sign: Seq<char>,
    pub registration: Seq<char>,
    pub model: Seq<char>,
    pub visible: bool,
}

impl View for Aircraft {
    type V = AircraftView;

    open spec fn view(&self) -> AircraftView {
        AircraftView {
            id: self.id@,
            call_sign: self.call_sign@,
            registration: self.registration@,
            model: self.model@,
            visible: self.visible,
        }
    }
}

impl Clone for Aircraft {
    fn clone(&self) -> (copy: Self)
        ensures
            copy@ == self@,
    {
        Aircraft {
            id: self.id.clone(),
            call_sign: self.call_sign.clone(),
            registration: self.registration.clone(),
            model: self.model.clone(),
            visible: self.visible,
        }
    }
}

impl AircraftView {
    /// Whether a model is known.
    pub open spec fn has_model(self) -> bool {
        self.model.len() > 0
    }

    /// The same aircraft with `model` in place of its model.
    pub open spec fn with_model(self, model: Seq<char>) -> AircraftView {
        AircraftView { model, ..self }
    }
}

impl Aircraft {
    /// Whether a model is known.
    pub fn has_model(&self) -> (known: bool)
        ensures
            known == self@.has_model(),
    {
        !self.model.as_str().is_empty()
    }

    /// A copy of the aircraft with `model` in place of its model.
    pub fn with_model(&self, model: String) -> (changed: Aircraft)
        ensures
            changed@ == self@.with_model(model@),
    {
        Aircraft {
            id: self.id.clone(),
            call_sign: self.call_sign.clone(),
            registration: self.registration.clone(),
            model,
            visible: self.visible,
        }
    }
}

/// The kinds of aircraft that the feed tells apart.
#[derive(Clone, Copy, Debug, PartialEq, Eq, Structural)]
pub enum AircraftType {
    Glider,
    Tow,
    Helicopter,
    SkyDiver,
    DropPlane,
    HangGlider,
    Paraglider,
    MotorAircraft,
    Jet,
    Balloon,
    Blimp,
    Unmanned,
    Obstacle,
}

impl AircraftType {
    /// The kind that the feed's four-bit type code `id` stands for.
    pub open spec fn of_code(id: u8) -> Option<AircraftType> {
        if id == 1 {
            Some(AircraftType::Glider)
        } else if id == 2 {
            Some(AircraftType::Tow)
        } else if id == 3 {
            Some(AircraftType::Helicopter)
        } else if id == 4 {
            Some(AircraftType::SkyDiver)
        } else if id == 5 {
            Some(AircraftType::DropPlane)
        } else if id == 6 {
            Some(AircraftType::HangGlider)
        } else if id == 7 {
            Some(AircraftType::Paraglider)
        } else if id == 8 {
            Some(AircraftType::MotorAircraft)
        } else if id == 9 {
            Some(AircraftType::Jet)
        } else if id == 11 {
            Some(AircraftType::Balloon)
        } else if id == 12 {
            Some(AircraftType::Blimp)
        } else if id == 13 {
            Some(AircraftType::Unmanned)
        } else if id == 15 {
            Some(AircraftType::Obstacle)
        } else {
            None
        }
    }

    /// The English name of the kind.
    pub open spec fn name(self) -> Seq<char> {
        match self {
            AircraftType::Glider => "(Motor) Glider"@,
            AircraftType::Tow => "Tow plane"@,
            AircraftType::Helicopter => "Helicopter / Gyrocopter"@,
            AircraftType::SkyDiver => "Skydiver / Parachute"@,
            AircraftType::DropPlane => "Drop plane"@,
            AircraftType::HangGlider => "Hang glider"@,
            AircraftType::Paraglider => "Paraglider"@,
            AircraftType::MotorAircraft => "Motor aircaft"@,
            AircraftType::Jet => "Jet"@,
            AircraftType::Balloon => "Balloon"@,
            AircraftType::Blimp => "Blimp"@,
            AircraftType::Unmanned => "Unmanned (Drone)"@,
            AircraftType::Obstacle => "Obstacle"@,
        }
    }

    /// The kind that the feed's type code `id` stands for; codes 0, 10 and 14
    /// and all above 15 stand for none.
    pub fn from_aprs_u8(id: u8) -> (kind: Option<AircraftType>)
        ensures
            kind == Self::of_code(id),
    {
        match id {
            1 => Some(Self::Glider),
            2 => Some(Self::Tow),
            3 => Some(Self::Helicopter),
            4 => Some(Self::SkyDiver),
            5 => Some(Self::DropPlane),
            6 => Some(Self::HangGlider),
            7 => Some(Self::Paraglider),
            8 => Some(Self::MotorAircraft),
            9 => Some(Self::Jet),
            11 => Some(Self::Balloon),
            12 => Some(Self::Blimp),
            13 => Some(Self::Unmanned),
            15 => Some(Self::Obstacle),
            _ => None,
        }
    }

    /// The English name of the kind.
    pub fn get_name(&self) -> (name: &'static str)
        ensures
            name@ == self.name(),
    {
        match self {
            Self::Glider => "(Motor) Glider",
            Self::Tow => "Tow plane",
            Self::Helicopter => "Helicopter / Gyrocopter",
            Self::SkyDiver => "Skydiver / Parachute",
            Self::DropPlane => "Drop plane",
            Self::HangGlider => "Hang glider",
            Self::Paraglider => "Paraglider",
            Self::MotorAircraft => "Motor aircaft",
            Self::Jet => "Jet",
            Self::Balloon => "Balloon",
            Self::Blimp => "Blimp",
            Self::Unmanned => "Unmanned (Drone)",
            Self::Obstacle => "Obstacle",
        }
    }
}

} // verus!
