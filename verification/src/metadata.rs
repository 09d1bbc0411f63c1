//! Recognition of header and footer tokens: the effective date, the shift
//! number, the validity pattern and the depot location.

use vstd::prelude::*;
use crate::dates::{spec_parse_date, parse_date, Date};
use crate::shift_structs::ShiftValid;
use crate::text::{
    remove_all, spec_contains, tail_after_last, remove_all_str, split_tail_after_last, str_contains,
};

verus! {

/// The page metadata a shift accumulates while its pages are parsed.
#[derive(Debug, Clone, PartialEq)]
pub struct ShiftMeta {
    pub starting_date: Date,
    pub valid_on: ShiftValid,
    pub shift_number: String,
    pub location: String,
}

/// View of [`ShiftMeta`] over character sequences.
pub struct ShiftMetaView {
    pub starting_date: Date,
    pub valid_on: ShiftValid,
    pub shift_number: Seq<char>,
    pub location: Seq<char>,
}

impl View for ShiftMeta {
    type V = ShiftMetaView;

    open spec fn view(&self) -> ShiftMetaView {
        ShiftMetaView {
            starting_date: self.starting_date,
            valid_on: self.valid_on,
            shift_number: self.shift_number@,
            location: self.location@,
        }
    }
}

/// The y-threshold above which a free footer token can name the depot.
pub const LOCATION_Y: i64 = 760_000;

/// The x-threshold right of which a free footer token can name the depot.
pub const LOCATION_X: i64 = 300_000;

/// What one metadata token does to the accumulated metadata, the rules
/// tried in their fixed priority order; `None` when the token matched the
/// effective-date rule but its payload is no `dd-mm-yyyy` date.
pub open spec fn spec_identify_metadata(
    md: Seq<char>,
    y: int,
    x: int,
    old_meta: ShiftMetaView,
) -> Option<ShiftMetaView> {
    if spec_contains(md, "Ingangsdatum "@) {
        match spec_parse_date(tail_after_last(md, "Ingangsdatum "@)) {
            Some(d) => Some(ShiftMetaView { starting_date: d, ..old_meta }),
            None => None,
        }
    } else if spec_contains(md, "Dienst "@) {
        Some(
            ShiftMetaView {
                shift_number: remove_all(tail_after_last(md, "Dienst "@), " "@),
                ..old_meta
            },
        )
    } else if spec_contains(md, "MA/DI/WO/DO/VR"@) {
        Some(ShiftMetaView { valid_on: ShiftValid::Weekdays, ..old_meta })
    } else if spec_contains(md, "MA/DI/DO/VR"@) {
        Some(ShiftMetaView { valid_on: ShiftValid::WeekdaysExceptWednesday, ..old_meta })
    } else if spec_contains(md, "WO"@) {
        Some(ShiftMetaView { valid_on: ShiftValid::Wednesday, ..old_meta })
    } else if spec_contains(md, "ZA"@) {
        Some(ShiftMetaView { valid_on: ShiftValid::Saturday, ..old_meta })
    } else if spec_contains(md, "ZO"@) {
        Some(ShiftMetaView { valid_on: ShiftValid::Sunday, ..old_meta })
    } else if y > LOCATION_Y && x > LOCATION_X {
        Some(ShiftMetaView { location: md, ..old_meta })
    } else {
        Some(old_meta)
    }
}

/// Applies one metadata token to the accumulated metadata. A token that
/// matches no rule is silently ignored; only an effective-date payload
/// that fails to parse reports failure.
pub fn identify_metadata(meta: &mut ShiftMeta, metadata: String, current_y: i64, current_x: i64) -> (r:
    Option<()>)
    ensures
        match r {
            Some(_) => spec_identify_metadata(metadata@, current_y as int, current_x as int, old(
                meta,
            )@) == Some(final(meta)@),
            None => spec_identify_metadata(metadata@, current_y as int, current_x as int, old(meta)@)
                is None && final(meta)@ == old(meta)@,
        },
{
    if str_contains(metadata.as_str(), "Ingangsdatum ") {
        let tail = split_tail_after_last(metadata.as_str(), "Ingangsdatum ");
        match parse_date(tail.as_str()) {
            Some(d) => {
                meta.starting_date = d;
                Some(())
            },
            None => None,
        }
    } else if str_contains(metadata.as_str(), "Dienst ") {
        let tail = split_tail_after_last(metadata.as_str(), "Dienst ");
        proof {
            reveal_strlit(" ");
        }
        meta.shift_number = remove_all_str(tail.as_str(), " ");
        Some(())
    } else if str_contains(metadata.as_str(), "MA/DI/WO/DO/VR") {
        meta.valid_on = ShiftValid::Weekdays;
        Some(())
    } else if str_contains(metadata.as_str(), "MA/DI/DO/VR") {
        meta.valid_on = ShiftValid::WeekdaysExceptWednesday;
        Some(())
    } else if str_contains(metadata.as_str(), "WO") {
        meta.valid_on = ShiftValid::Wednesday;
        Some(())
    } else if str_contains(metadata.as_str(), "ZA") {
        meta.valid_on = ShiftValid::Saturday;
        Some(())
    } else if str_contains(metadata.as_str(), "ZO") {
        meta.valid_on = ShiftValid::Sunday;
        Some(())
    } else if current_y > LOCATION_Y && current_x > LOCATION_X {
        meta.location = metadata;
        Some(())
    } else {
        Some(())
    }
}

} // verus!
