use vstd::prelude::*;
use core::cmp::Ordering;

verus! {

/// Earliest and latest creation instants, in seconds since the Unix epoch, that this library
/// accepts for a snapshot; both lie well inside the calendar range of the date library.
pub const CREATION_MIN: i64 = -8_000_000_000_000;
pub const CREATION_MAX: i64 = 8_000_000_000_000;

pub open spec fn creation_in_range(t: i64) -> bool {
    CREATION_MIN <= t <= CREATION_MAX
}

/// A snapshot of a dataset.
///
/// Identity is the `guid` alone: two values with the same guid are the same snapshot, whatever
/// their names say. Snapshots are ordered by `creation` (seconds since the Unix epoch, UTC).
#[derive(Debug, Clone)]
pub struct Snap {
    pub guid: u64,
    /// Only the snapshot name, i.e. what stands to the right of `@`.
    pub name: String,
    pub creation: i64,
    pub holds: u32,
}

/// The ordering of two snapshots: equal when they are the same snapshot (same guid), otherwise
/// by creation instant; two distinct snapshots taken at the same instant are not comparable.
pub open spec fn snap_order(a: Snap, b: Snap) -> Option<Ordering> {
    if a.guid == b.guid {
        Some(Ordering::Equal)
    } else if a.creation < b.creation {
        Some(Ordering::Less)
    } else if a.creation > b.creation {
        Some(Ordering::Greater)
    } else {
        None
    }
}

impl Snap {
    /// A copy of this snapshot, field for field.
    pub fn duplicate(&self) -> (r: Snap)
        ensures
            r == *self,
    {
        Snap { guid: self.guid, name: self.name.clone(), creation: self.creation, holds: self.holds }
    }

    /// The text shown for a snapshot: its name.
    pub fn display_name(&self) -> (r: String)
        ensures
            r@ == self.name@,
    {
        self.name.clone()
    }
}

impl Default for Snap {
    fn default() -> (r: Snap)
        ensures
            r.guid == 0,
            r.name@.len() == 0,
            r.creation == 0,
            r.holds == 0,
    {
        Snap { guid: 0, name: String::new(), creation: 0, holds: 0 }
    }
}

impl PartialEq for Snap {
    fn eq(&self, other: &Snap) -> (r: bool)
        ensures
            r == (self.guid == other.guid),
    {
        self.guid == other.guid
    }
}

impl vstd::std_specs::cmp::PartialEqSpecImpl for Snap {
    open spec fn obeys_eq_spec() -> bool {
        true
    }

    open spec fn eq_spec(&self, other: &Snap) -> bool {
        self.guid == other.guid
    }
}

impl Eq for Snap {
}

impl PartialOrd for Snap {
    fn partial_cmp(&self, other: &Snap) -> (r: Option<Ordering>)
        ensures
            r == snap_order(*self, *other),
    {
        if self.guid == other.guid {
            Some(Ordering::Equal)
        } else if self.creation < other.creation {
            Some(Ordering::Less)
        } else if self.creation > other.creation {
            Some(Ordering::Greater)
        } else {
            None
        }
    }
}

impl vstd::std_specs::cmp::PartialOrdSpecImpl for Snap {
    open spec fn obeys_partial_cmp_spec() -> bool {
        true
    }

    open spec fn partial_cmp_spec(&self, other: &Snap) -> Option<Ordering> {
        snap_order(*self, *other)
    }
}

} // verus!
