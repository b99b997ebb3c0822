use vstd::prelude::*;

verus! {

/// Maximum number of signals in a ping.
pub const MAX_SIGNALS: usize = 1000;

/// Maximum number of contacts reported for one ping.
pub const MAX_CONTACTS: usize = 20;

/// Contact of unknown kind.
pub const CONTACT_TYPE_UNKNOWN: i32 = 0;

/// Likely a rock or solid structure.
pub const CONTACT_TYPE_ROCK: i32 = 1;

/// Likely a vessel.
pub const CONTACT_TYPE_VESSEL: i32 = 2;

/// Possibly marine life.
pub const CONTACT_TYPE_MARINE_LIFE: i32 = 3;

/// The display name of a contact type code.
pub open spec fn contact_type_name(contact_type: i32) -> Seq<char> {
    if contact_type == CONTACT_TYPE_UNKNOWN {
        "Unknown"@
    } else if contact_type == CONTACT_TYPE_ROCK {
        "Rock/Structure"@
    } else if contact_type == CONTACT_TYPE_VESSEL {
        "Vessel"@
    } else if contact_type == CONTACT_TYPE_MARINE_LIFE {
        "Marine Life"@
    } else {
        "Invalid"@
    }
}

/// Returns the display name of a contact type code; codes outside the four
/// known kinds are named "Invalid".
pub fn contact_type_to_string(contact_type: i32) -> (name: &'static str)
    ensures
        name@ == contact_type_name(contact_type),
        contact_type == 0 ==> name@ == "Unknown"@,
        contact_type == 1 ==> name@ == "Rock/Structure"@,
        contact_type == 2 ==> name@ == "Vessel"@,
        contact_type == 3 ==> name@ == "Marine Life"@,
        !(0 <= contact_type <= 3) ==> name@ == "Invalid"@,
{
    match contact_type {
        0 => "Unknown",
        1 => "Rock/Structure",
        2 => "Vessel",
        3 => "Marine Life",
        _ => "Invalid",
    }
}

} // verus!
