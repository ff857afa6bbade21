//! Catalog entity records and the production recipe.
//!
//! Inter-record references are plain string identifiers, chosen for
//! configuration ergonomics; an external registry resolves them and may
//! intern them into dense indices for hot paths.

use vstd::prelude::*;

verus! {

use crate::balance::Balance;

/// A ware that is produced and consumed.
#[derive(Debug, Clone)]
pub struct WareType {
    pub display_name: String,
}

/// Identifier of a ware type, used as a map key by the surrounding catalog.
pub type WareTypeId = String;

/// A type of building.
#[derive(Debug, Clone)]
pub struct BuildingType {
    pub display_name: String,
}

/// Identifier of a building type.
pub type BuildingTypeId = String;

/// A class of population that supplies or consumes labor.
#[derive(Debug, Clone)]
pub struct PopulationClass {
    pub display_name: String,
}

/// Identifier of a population class.
pub type PopulationClassId = String;

/// Identifier of a recipe.
pub type RecipeId = String;

/// The wall-clock time one production cycle takes, as whole seconds plus a
/// sub-second nanosecond part.
#[derive(Debug, Clone, Copy, PartialEq, Eq, Structural)]
pub struct CycleDuration {
    pub secs: u64,
    pub nanos: u32,
}

impl CycleDuration {
    /// The nanosecond part never reaches a whole second.
    pub open spec fn wf(&self) -> bool {
        self.nanos < 1_000_000_000
    }

    /// Builds a duration from whole seconds and a sub-second nanosecond part.
    pub fn new(secs: u64, nanos: u32) -> (d: CycleDuration)
        requires
            nanos < 1_000_000_000,
        ensures
            d.wf(),
            d.secs == secs,
            d.nanos == nanos,
    {
        CycleDuration { secs, nanos }
    }
}

/// A production process: over one cycle, performed in a given building, it
/// consumes and produces wares per `conversion` and labor per `labor`, with
/// inputs as negative amounts and outputs as positive ones.
#[derive(Debug, Clone)]
pub struct Recipe {
    /// Human-readable name of the recipe.
    pub display_name: String,
    /// The building this recipe is performed in. The reference is not
    /// validated here; an external catalog resolves it.
    pub building: BuildingTypeId,
    /// The net ware amounts per cycle, keyed by ware identifier.
    pub conversion: Balance,
    /// The time it takes to perform this recipe once.
    pub cycle: CycleDuration,
    /// The net labor per cycle, keyed by population class; labor costs are
    /// negative amounts.
    pub labor: Balance,
}

impl Recipe {
    /// Both ledgers and the cycle duration are well-formed.
    pub open spec fn wf(&self) -> bool {
        self.conversion.wf() && self.labor.wf() && self.cycle.wf()
    }

    /// A recipe is constructed whole from its parts; it performs no
    /// validation of cross-references or of sign conventions.
    pub fn new(
        display_name: String,
        building: BuildingTypeId,
        conversion: Balance,
        cycle: CycleDuration,
        labor: Balance,
    ) -> (r: Recipe)
        requires
            conversion.wf(),
            labor.wf(),
            cycle.wf(),
        ensures
            r.wf(),
            r.display_name == display_name,
            r.building == building,
            r.conversion == conversion,
            r.cycle == cycle,
            r.labor == labor,
    {
        Recipe { display_name, building, conversion, cycle, labor }
    }
}

} // verus!
