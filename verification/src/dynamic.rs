//! The variables whose values the system gives: the time, and random identifiers.
use crate::domain::ValueSensitivity;
use crate::naming::{format_uuid, uuid_text};
use crate::number::{decimal, wide_decimal_text};
use crate::text::same_text;
use crate::value::{DefinitionView, ValueView, VariableDefinition, VariableValue};
use vstd::prelude::*;

verus! {

/// What the system says when a variable is asked for.
#[derive(Clone, Copy, Debug, PartialEq, Eq)]
pub struct SystemMoment {
    /// Random bytes, where the system gave any.
    pub random: Option<[u8; 16]>,
    /// The nanoseconds since the beginning of 1970.
    pub nanoseconds: u128,
    /// How many identifiers were made without random bytes before.
    pub sequence: u64,
}

/// The bytes of a number, the most significant first.
pub open spec fn big_endian(n: u128, count: nat) -> Seq<u8>
    decreases count,
{
    if count == 0 {
        seq![]
    } else {
        big_endian(n / 256, (count - 1) as nat).push((n % 256) as u8)
    }
}

/// Writes a number as bytes, the most significant first.
fn number_bytes(n: u128, count: usize) -> (r: Vec<u8>)
    ensures
        r@ == big_endian(n, count as nat),
        r@.len() == count,
    decreases count,
{
    if count == 0 {
        Vec::new()
    } else {
        let mut r = number_bytes(n / 256, count - 1);
        r.push((n % 256) as u8);
        r
    }
}

/// The bytes that an identifier is made of: random ones, or else the time mixed with a count.
pub open spec fn identifier_bytes(now: SystemMoment) -> Seq<u8> {
    match now.random {
        Some(bytes) => bytes@,
        None => big_endian(now.nanoseconds ^ (now.sequence as u128), 16),
    }
}

/// The text that a variable of the system stands for.
pub open spec fn system_text(name: Seq<char>, now: SystemMoment) -> Option<Seq<char>> {
    if name == "$uuid"@ {
        Some(uuid_text(identifier_bytes(now)))
    } else if name == "$timestamp"@ {
        Some(decimal((now.nanoseconds / 1_000_000_000) as nat))
    } else if name == "$timestamp_ms"@ {
        Some(decimal((now.nanoseconds / 1_000_000) as nat))
    } else {
        None
    }
}

/// The definition of a variable of the system.
pub open spec fn system_variable(name: Seq<char>, now: SystemMoment) -> Option<DefinitionView> {
    match system_text(name, now) {
        None => None,
        Some(text) => Some(
            DefinitionView {
                value: ValueView::String(text),
                sensitivity: ValueSensitivity::Public,
                enabled: true,
                description: Some("ApexAPI built-in dynamic value"@),
            },
        ),
    }
}

/// Finds the definition of a variable of the system.
pub fn system_definition(name: &str, now: &SystemMoment) -> (r: Option<VariableDefinition>)
    ensures
        match r {
            Some(d) => system_variable(name@, *now) == Some(d@),
            None => system_variable(name@, *now) is None,
        },
{
    let text = if same_text(name, "$uuid") {
        match &now.random {
            Some(bytes) => format_uuid(bytes.as_slice()),
            None => {
                let bytes = number_bytes(now.nanoseconds ^ (now.sequence as u128), 16);
                format_uuid(bytes.as_slice())
            },
        }
    } else if same_text(name, "$timestamp") {
        wide_decimal_text(now.nanoseconds / 1_000_000_000)
    } else if same_text(name, "$timestamp_ms") {
        wide_decimal_text(now.nanoseconds / 1_000_000)
    } else {
        return None;
    };
    Some(
        VariableDefinition {
            value: VariableValue::String(text),
            sensitivity: ValueSensitivity::Public,
            enabled: true,
            description: Some("ApexAPI built-in dynamic value".to_owned()),
        },
    )
}

/// The system answers for the time in seconds and in milliseconds since the beginning of 1970,
/// and for an identifier of its random bytes, each public and enabled. It answers for no other
/// name.
pub proof fn law_system_answers_for_its_names(now: SystemMoment, name: Seq<char>)
    ensures
        system_variable("$timestamp"@, now) matches Some(d) && d.value == ValueView::String(
            decimal((now.nanoseconds / 1_000_000_000) as nat),
        ),
        system_variable("$timestamp_ms"@, now) matches Some(d) && d.value == ValueView::String(
            decimal((now.nanoseconds / 1_000_000) as nat),
        ),
        system_variable("$uuid"@, now) is Some,
        now.random matches Some(bytes) ==> system_variable("$uuid"@, now)->Some_0.value
            == ValueView::String(uuid_text(bytes@)),
        system_variable(name, now) matches Some(d) ==> d.enabled && d.sensitivity
            == ValueSensitivity::Public,
        system_variable(name, now) is Some ==> name == "$uuid"@ || name == "$timestamp"@ || name
            == "$timestamp_ms"@,
{
    reveal_strlit("$uuid");
    reveal_strlit("$timestamp");
    reveal_strlit("$timestamp_ms");
    assert("$uuid"@.len() != "$timestamp"@.len());
    assert("$uuid"@.len() != "$timestamp_ms"@.len());
    assert("$timestamp"@.len() != "$timestamp_ms"@.len());
}

} // verus!
