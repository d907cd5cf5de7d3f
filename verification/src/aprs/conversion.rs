//! Decoding of a telemetry line into the status of an aircraft.

use vstd::prelude::*;
use vstd::string::StringExecFns;
use crate::aircraft::{Aircraft, AircraftType, AircraftView};
use crate::aprs::fields::{
    capture_as_coordinate_value, capture_as_fixed, capture_as_u16, coordinate_field, fixed_field,
    u16_field, FACTOR_FT_MIN_TO_M_SEC, FACTOR_FT_TO_M, FACTOR_KNOTS_TO_KM_H, FACTOR_NONE,
    FACTOR_TURNS_TWO_MIN_TO_TURNS_MIN,
};
use crate::aprs::flags::{aircraft_type_field, get_aircraft_type_by_capture, ProtocolViolation};
use crate::aprs::matcher::{captured_groups, groups_view, LineMatcher, LINE_PATTERN};
use crate::aprs::status::{Status, StatusView};
use crate::position::Position;
use crate::registry::Registry;
use crate::text::text_view;
use crate::time::get_current_timestamp;

verus! {

/// How many capture groups a match of the line pattern has, the whole match
/// counted.
pub const GROUP_COUNT: usize = 10;

/// Index of the latitude among the capture groups.
pub const GROUP_LATITUDE: usize = 1;

/// Index of the longitude among the capture groups.
pub const GROUP_LONGITUDE: usize = 2;

/// Index of the course among the capture groups.
pub const GROUP_COURSE: usize = 3;

/// Index of the speed among the capture groups.
pub const GROUP_SPEED: usize = 4;

/// Index of the altitude among the capture groups.
pub const GROUP_ALTITUDE: usize = 5;

/// Index of the sender's flags among the capture groups.
pub const GROUP_FLAGS: usize = 6;

/// Index of the sender's identifier among the capture groups.
pub const GROUP_ID: usize = 7;

/// Index of the climb rate among the capture groups.
pub const GROUP_VERTICAL_SPEED: usize = 8;

/// Index of the turn rate among the capture groups.
pub const GROUP_TURN_RATE: usize = 9;

/// The outcome of decoding, with the status by its view.
pub open spec fn outcome_view(outcome: Result<Option<Status>, ProtocolViolation>) -> Result<
    Option<StatusView>,
    ProtocolViolation,
> {
    match outcome {
        Ok(Some(status)) => Ok(Some(status@)),
        Ok(None) => Ok(None),
        Err(violation) => Err(violation),
    }
}

/// The model name that stands for a kind of aircraft: its English name, or
/// the empty text where the kind is not known.
pub open spec fn model_name(kind: Option<AircraftType>) -> Seq<char> {
    match kind {
        Some(kind) => kind.name(),
        None => Seq::empty(),
    }
}

/// The aircraft that a line from the sender `id` with the flags `flags` is
/// about. Flags with the stealth or the no-tracking bit are a violation,
/// whatever the registry knows. Else an entry of the registry with a model is
/// taken as it is. One without a model gets the name of the kind that the
/// flags give. A sender that the registry does not know is made up from the
/// identifier and that name, and is visible.
pub open spec fn resolved_aircraft(
    registry: Map<Seq<char>, AircraftView>,
    id: Seq<char>,
    flags: Option<Seq<char>>,
) -> Result<AircraftView, ProtocolViolation> {
    match aircraft_type_field(flags) {
        Err(violation) => Err(violation),
        Ok(kind) => if !registry.contains_key(id) {
            Ok(
                AircraftView {
                    id,
                    call_sign: Seq::empty(),
                    registration: Seq::empty(),
                    model: model_name(kind),
                    visible: true,
                },
            )
        } else if registry[id].has_model() {
            Ok(registry[id])
        } else {
            Ok(registry[id].with_model(model_name(kind)))
        },
    }
}

/// The status of `aircraft` at the position given, with the optional fields
/// that the capture groups of a line hold: each is absent by itself where it
/// is missing or out of range.
pub open spec fn status_of(
    groups: Seq<Option<Seq<char>>>,
    aircraft: AircraftView,
    position: Position,
    now: u64,
) -> StatusView {
    StatusView {
        aircraft,
        position,
        speed: u16_field(groups[GROUP_SPEED as int], FACTOR_KNOTS_TO_KM_H as int),
        vertical_speed: fixed_field(
            groups[GROUP_VERTICAL_SPEED as int],
            FACTOR_FT_MIN_TO_M_SEC as int,
        ),
        altitude: u16_field(groups[GROUP_ALTITUDE as int], FACTOR_FT_TO_M as int),
        turn_rate: fixed_field(
            groups[GROUP_TURN_RATE as int],
            FACTOR_TURNS_TWO_MIN_TO_TURNS_MIN as int,
        ),
        course: u16_field(groups[GROUP_COURSE as int], FACTOR_NONE as int),
        time_stamp: now,
    }
}

/// The identifier that the capture groups of a line hold, where they are
/// those of the line pattern and the identifier is there and not empty.
pub open spec fn sender_of(groups: Seq<Option<Seq<char>>>) -> Option<Seq<char>> {
    if groups.len() != GROUP_COUNT {
        None
    } else {
        match groups[GROUP_ID as int] {
            Some(id) => if id.len() > 0 {
                Some(id)
            } else {
                None
            },
            None => None,
        }
    }
}

/// The status that the capture groups of a line stand for. There is none
/// where the groups are not those of the line pattern or where the identifier,
/// the latitude or the longitude is missing or cannot be decoded. The aircraft
/// is resolved before the position is decoded, so a violation shows whatever
/// the position holds.
pub open spec fn decoded(
    groups: Seq<Option<Seq<char>>>,
    registry: Map<Seq<char>, AircraftView>,
    now: u64,
) -> Result<Option<StatusView>, ProtocolViolation> {
    match sender_of(groups) {
        None => Ok(None),
        Some(id) => match resolved_aircraft(registry, id, groups[GROUP_FLAGS as int]) {
            Err(violation) => Err(violation),
            Ok(aircraft) => match (
                coordinate_field(groups[GROUP_LATITUDE as int]),
                coordinate_field(groups[GROUP_LONGITUDE as int]),
            ) {
                (Some(latitude), Some(longitude)) => Ok(
                    Some(status_of(groups, aircraft, Position { latitude, longitude }, now)),
                ),
                _ => Ok(None),
            },
        },
    }
}

/// A decoded status is of the sender that the line names, whose identifier
/// is not empty, and carries the time at which it was decoded; this holds with
/// a registry in which every aircraft stands under its own identifier.
pub proof fn lemma_decoded_sender(
    groups: Seq<Option<Seq<char>>>,
    registry: Map<Seq<char>, AircraftView>,
    now: u64,
)
    requires
        forall|id: Seq<char>| registry.contains_key(id) ==> (#[trigger] registry[id]).id == id,
    ensures
        decoded(groups, registry, now) matches Ok(Some(status)) ==> {
            &&& sender_of(groups) == Some(status.aircraft.id)
            &&& status.aircraft.id.len() > 0
            &&& status.time_stamp == now
        },
{
}

/// An aircraft that the registry does not know is visible, and one that it
/// knows is as visible as the registry says.
pub proof fn lemma_resolved_visibility(
    registry: Map<Seq<char>, AircraftView>,
    id: Seq<char>,
    flags: Option<Seq<char>>,
)
    ensures
        resolved_aircraft(registry, id, flags) matches Ok(aircraft) ==> aircraft.visible == (
        !registry.contains_key(id) || registry[id].visible),
{
}

/// The status that a line stands for, given what the line pattern captured in
/// it: none where the pattern did not match.
pub open spec fn decoded_line(
    found: Option<Seq<Option<Seq<char>>>>,
    registry: Map<Seq<char>, AircraftView>,
    now: u64,
) -> Result<Option<StatusView>, ProtocolViolation> {
    match found {
        None => Ok(None),
        Some(groups) => decoded(groups, registry, now),
    }
}

/// The model name that stands for a kind of aircraft.
fn model_of(kind: Option<AircraftType>) -> (model: String)
    ensures
        model@ == model_name(kind),
{
    match kind {
        Some(kind) => String::from_str(kind.get_name()),
        None => String::new(),
    }
}

/// The outcome of resolving an aircraft, with the aircraft by its view.
pub open spec fn resolved_view(resolved: Result<Aircraft, ProtocolViolation>) -> Result<
    AircraftView,
    ProtocolViolation,
> {
    match resolved {
        Ok(aircraft) => Ok(aircraft@),
        Err(violation) => Err(violation),
    }
}

/// The aircraft that a line from the sender `id` with the flags `flags` is
/// about.
pub fn resolve_aircraft(id: &String, flags: &Option<String>, aircraft: &Registry) -> (resolved:
    Result<Aircraft, ProtocolViolation>)
    ensures
        resolved_view(resolved) == resolved_aircraft(aircraft@, id@, text_view(*flags)),
{
    let kind = match get_aircraft_type_by_capture(flags) {
        Err(violation) => {
            return Err(violation);
        },
        Ok(kind) => kind,
    };
    match aircraft.get(id) {
        Some(known) => {
            if known.has_model() {
                Ok(known.clone())
            } else {
                Ok(known.with_model(model_of(kind)))
            }
        },
        None => Ok(
            Aircraft {
                id: id.clone(),
                call_sign: String::new(),
                registration: String::new(),
                model: model_of(kind),
                visible: true,
            },
        ),
    }
}

/// Decodes the capture groups of a line into a status with the time stamp
/// `now`.
pub fn convert_groups(groups: &Vec<Option<String>>, aircraft: &Registry, now: u64) -> (outcome:
    Result<Option<Status>, ProtocolViolation>)
    ensures
        outcome_view(outcome) == decoded(groups_view(groups@), aircraft@, now),
{
    if groups.len() != GROUP_COUNT {
        return Ok(None);
    }
    let id = match &groups[GROUP_ID] {
        None => {
            return Ok(None);
        },
        Some(id) => id,
    };
    if id.as_str().is_empty() {
        return Ok(None);
    }
    let resolved = match resolve_aircraft(id, &groups[GROUP_FLAGS], aircraft) {
        Err(violation) => {
            return Err(violation);
        },
        Ok(resolved) => resolved,
    };
    let latitude = match capture_as_coordinate_value(&groups[GROUP_LATITUDE]) {
        None => {
            return Ok(None);
        },
        Some(latitude) => latitude,
    };
    let longitude = match capture_as_coordinate_value(&groups[GROUP_LONGITUDE]) {
        None => {
            return Ok(None);
        },
        Some(longitude) => longitude,
    };
    Ok(
        Some(
            Status {
                aircraft: resolved,
                position: Position { latitude, longitude },
                speed: capture_as_u16(&groups[GROUP_SPEED], FACTOR_KNOTS_TO_KM_H),
                vertical_speed: capture_as_fixed(
                    &groups[GROUP_VERTICAL_SPEED],
                    FACTOR_FT_MIN_TO_M_SEC,
                ),
                altitude: capture_as_u16(&groups[GROUP_ALTITUDE], FACTOR_FT_TO_M),
                turn_rate: capture_as_fixed(
                    &groups[GROUP_TURN_RATE],
                    FACTOR_TURNS_TWO_MIN_TO_TURNS_MIN,
                ),
                course: capture_as_u16(&groups[GROUP_COURSE], FACTOR_NONE),
                time_stamp: now,
            },
        ),
    )
}

/// Decodes `line` into a status with the time stamp `now`: none where the
/// line pattern does not match or a needed field cannot be decoded.
pub fn convert_at(matcher: &LineMatcher, line: &str, aircraft: &Registry, now: u64) -> (outcome:
    Result<Option<Status>, ProtocolViolation>)
    ensures
        outcome_view(outcome) == decoded_line(
            captured_groups(LINE_PATTERN@, line@),
            aircraft@,
            now,
        ),
{
    match matcher.captures(line) {
        None => Ok(None),
        Some(groups) => convert_groups(&groups, aircraft, now),
    }
}

/// Decodes `line` into a status that carries the time of the call as its time
/// stamp.
pub fn convert(matcher: &LineMatcher, line: &str, aircraft: &Registry) -> (outcome: Result<
    Option<Status>,
    ProtocolViolation,
>)
    ensures
        exists|now: u64|
            outcome_view(outcome) == #[trigger] decoded_line(
                captured_groups(LINE_PATTERN@, line@),
                aircraft@,
                now,
            ),
{
    convert_at(matcher, line, aircraft, get_current_timestamp())
}

} // verus!
