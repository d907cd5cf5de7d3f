//! Reading of the records that the device database hands out.

use vstd::prelude::*;
use crate::aircraft::{Aircraft, AircraftView};
use crate::registry::Registry;
use crate::text::{
    chars_of, fields_view, remove_char, split, split_chars, trim, trimmed, without,
};

verus! {

/// What "yes" reads in a record.
pub const VALUE_YES: char = 'Y';

/// What separates the fields of a record.
pub const FIELD_SEPARATOR: char = ',';

/// What a comment line starts with.
pub const IDENTIFIER_COMMENT: char = '#';

/// What encloses a field.
pub const FIELD_ENCLOSURE: char = '\'';

/// What separates the records of a response.
pub const LINE_BREAK: char = '\n';

/// How many fields a record has at least.
pub const FIELD_COUNT: usize = 7;

/// Index of the identifier among the fields.
pub const INDEX_ID: usize = 1;

/// Index of the model among the fields.
pub const INDEX_TYPE: usize = 2;

/// Index of the registration among the fields.
pub const INDEX_REGISTRATION: usize = 3;

/// Index of the call sign among the fields.
pub const INDEX_CALL_SIGN: usize = 4;

/// Index of the field that says whether the aircraft may be tracked.
pub const INDEX_TRACKED: usize = 5;

/// Index of the field that says whether the aircraft may be identified.
pub const INDEX_IDENTIFIED: usize = 6;

/// The fields of a record: the line without the enclosures, split at the
/// separators, each field without the white space around it.
pub open spec fn record_fields(line: Seq<char>) -> Seq<Seq<char>> {
    split(without(line, FIELD_ENCLOSURE), FIELD_SEPARATOR).map_values(
        |field: Seq<char>| trimmed(field),
    )
}

/// Whether `field` reads "yes".
pub open spec fn is_yes(field: Seq<char>) -> bool {
    field == seq![VALUE_YES]
}

/// The aircraft that a line of the database stands for. There is none for a
/// comment line, for a line with fewer than seven fields and for one with an
/// empty identifier. The aircraft is visible where it may be both tracked and
/// identified.
pub open spec fn record_aircraft(line: Seq<char>) -> Option<AircraftView> {
    let fields = record_fields(line);
    if line.len() > 0 && line[0] == IDENTIFIER_COMMENT {
        None
    } else if fields.len() < FIELD_COUNT || fields[INDEX_ID as int].len() == 0 {
        None
    } else {
        Some(
            AircraftView {
                id: fields[INDEX_ID as int],
                call_sign: fields[INDEX_CALL_SIGN as int],
                registration: fields[INDEX_REGISTRATION as int],
                model: fields[INDEX_TYPE as int],
                visible: is_yes(fields[INDEX_IDENTIFIED as int]) && is_yes(
                    fields[INDEX_TRACKED as int],
                ),
            },
        )
    }
}

/// The view of what a conversion gave.
pub open spec fn converted_view(converted: Option<Aircraft>) -> Option<AircraftView> {
    match converted {
        Some(aircraft) => Some(aircraft@),
        None => None,
    }
}

/// The registry that the lines `lines` make up, read in order: a later record
/// of an identifier takes the place of an earlier one.
pub open spec fn records_registry(lines: Seq<Seq<char>>) -> Map<Seq<char>, AircraftView>
    decreases lines.len(),
{
    if lines.len() == 0 {
        Map::empty()
    } else {
        let before = records_registry(lines.drop_last());
        match record_aircraft(lines.last()) {
            Some(aircraft) => before.insert(aircraft.id, aircraft),
            None => before,
        }
    }
}

/// Whether the text of `field` is "yes".
fn reads_yes(field: &Vec<char>) -> (yes: bool)
    ensures
        yes == is_yes(trimmed(field@)),
{
    let text = chars_of(trim(field).as_str());
    let yes = text.len() == 1 && text[0] == VALUE_YES;
    proof {
        if yes {
            assert(text@ == seq![VALUE_YES]);
        }
    }
    yes
}

/// The aircraft that the characters of a line of the database stand for.
pub fn convert_chars(line: &Vec<char>) -> (converted: Option<Aircraft>)
    ensures
        converted_view(converted) == record_aircraft(line@),
{
    if line.len() > 0 && line[0] == IDENTIFIER_COMMENT {
        return None;
    }
    let stripped = remove_char(line, FIELD_ENCLOSURE);
    let fields = split_chars(&stripped, FIELD_SEPARATOR);
    if fields.len() < FIELD_COUNT {
        return None;
    }
    let id = trim(&fields[INDEX_ID]);
    if id.as_str().is_empty() {
        return None;
    }
    let call_sign = trim(&fields[INDEX_CALL_SIGN]);
    let registration = trim(&fields[INDEX_REGISTRATION]);
    let model = trim(&fields[INDEX_TYPE]);
    let visible = reads_yes(&fields[INDEX_IDENTIFIED]) && reads_yes(&fields[INDEX_TRACKED]);
    Some(Aircraft { id, call_sign, registration, model, visible })
}

/// The aircraft that a line of the database stands for, such as
/// `'O','AB1234','ASK-21','D-6507','G1','Y','Y'`.
pub fn convert(line: &str) -> (converted: Option<Aircraft>)
    ensures
        converted_view(converted) == record_aircraft(line@),
{
    let chars = chars_of(line);
    convert_chars(&chars)
}

/// The registry that a response of the database makes up: one record a line.
pub fn read_aircraft(response: &str) -> (registry: Registry)
    ensures
        registry@ == records_registry(split(response@, LINE_BREAK)),
{
    let chars = chars_of(response);
    let lines = split_chars(&chars, LINE_BREAK);
    let ghost all = split(response@, LINE_BREAK);
    let mut registry = Registry::new();
    let mut i: usize = 0;
    while i < lines.len()
        invariant
            i <= lines.len(),
            fields_view(lines@) == all,
            registry@ == records_registry(all.take(i as int)),
        decreases lines.len() - i,
    {
        proof {
            assert(all.take(i + 1).drop_last() == all.take(i as int));
        }
        match convert_chars(&lines[i]) {
            Some(aircraft) => {
                registry.insert(aircraft);
            },
            None => {},
        }
        i += 1;
    }
    proof {
        assert(all.take(i as int) == all);
    }
    registry
}

} // verus!
