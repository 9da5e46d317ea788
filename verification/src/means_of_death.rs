//! The closed enumeration of recognized death-cause tokens.
//!
//! A kill line names its cause in its final whitespace-delimited token;
//! only the tokens listed here are accepted, anything else aborts the
//! line as a parse failure.

use vstd::prelude::*;
use crate::text::str_eq;

verus! {

/// One recognized means of death.  The variant itself carries no
/// behaviour; the enumeration only gates which tokens are valid.
#[derive(Debug, PartialEq, Eq, Structural)]
pub enum MeansOfDeath {
    ModUnknown,
    ModShotgun,
    ModGauntlet,
    ModMachinegun,
    ModGrenade,
    ModGrenadeSplash,
    ModRocket,
    ModRocketSplash,
    ModPlasma,
    ModPlasmaSplash,
    ModRailgun,
    ModLightning,
    ModBfg,
    ModBfgSplash,
    ModWater,
    ModSlime,
    ModLava,
    ModCrush,
    ModTelefrag,
    ModFalling,
    ModSuicide,
    ModTargetLaser,
    ModTriggerHurt,
    ModNail,
    ModChaingun,
    ModProximityMine,
    ModKamikaze,
    ModJuiced,
    ModGrapple,
}

/// The variant a token names, or `None` for a token outside the closed
/// set.
pub open spec fn spec_means_from_str(s: Seq<char>) -> Option<MeansOfDeath> {
    if s == "MOD_UNKNOWN"@ {
        Some(MeansOfDeath::ModUnknown)
    } else if s == "MOD_SHOTGUN"@ {
        Some(MeansOfDeath::ModShotgun)
    } else if s == "MOD_GAUNTLET"@ {
        Some(MeansOfDeath::ModGauntlet)
    } else if s == "MOD_JUICED"@ {
        Some(MeansOfDeath::ModJuiced)
    } else if s == "MOD_KAMIKAZE"@ {
        Some(MeansOfDeath::ModKamikaze)
    } else if s == "MOD_PROXIMITY_MINE"@ {
        Some(MeansOfDeath::ModProximityMine)
    } else if s == "MOD_CHAINGUN"@ {
        Some(MeansOfDeath::ModChaingun)
    } else if s == "MOD_NAIL"@ {
        Some(MeansOfDeath::ModNail)
    } else if s == "MOD_TRIGGER_HURT"@ {
        Some(MeansOfDeath::ModTriggerHurt)
    } else if s == "MOD_TARGET_LASER"@ {
        Some(MeansOfDeath::ModTargetLaser)
    } else if s == "MOD_SUICIDE"@ {
        Some(MeansOfDeath::ModSuicide)
    } else if s == "MOD_FALLING"@ {
        Some(MeansOfDeath::ModFalling)
    } else if s == "MOD_TELEFRAG"@ {
        Some(MeansOfDeath::ModTelefrag)
    } else if s == "MOD_CRUSH"@ {
        Some(MeansOfDeath::ModCrush)
    } else if s == "MOD_LAVA"@ {
        Some(MeansOfDeath::ModLava)
    } else if s == "MOD_SLIME"@ {
        Some(MeansOfDeath::ModSlime)
    } else if s == "MOD_WATER"@ {
        Some(MeansOfDeath::ModWater)
    } else if s == "MOD_BFG_SPLASH"@ {
        Some(MeansOfDeath::ModBfgSplash)
    } else if s == "MOD_BFG"@ {
        Some(MeansOfDeath::ModBfg)
    } else if s == "MOD_LIGHTNING"@ {
        Some(MeansOfDeath::ModLightning)
    } else if s == "MOD_RAILGUN"@ {
        Some(MeansOfDeath::ModRailgun)
    } else if s == "MOD_PLASMA_SPLASH"@ {
        Some(MeansOfDeath::ModPlasmaSplash)
    } else if s == "MOD_PLASMA"@ {
        Some(MeansOfDeath::ModPlasma)
    } else if s == "MOD_ROCKET_SPLASH"@ {
        Some(MeansOfDeath::ModRocketSplash)
    } else if s == "MOD_ROCKET"@ {
        Some(MeansOfDeath::ModRocket)
    } else if s == "MOD_GRENADE_SPLASH"@ {
        Some(MeansOfDeath::ModGrenadeSplash)
    } else if s == "MOD_GRENADE"@ {
        Some(MeansOfDeath::ModGrenade)
    } else if s == "MOD_MACHINEGUN"@ {
        Some(MeansOfDeath::ModMachinegun)
    } else if s == "MOD_GRAPPLE"@ {
        Some(MeansOfDeath::ModGrapple)
    } else {
        None
    }
}

/// Membership in the closed set of recognized death-cause tokens.
pub open spec fn is_recognized_means(s: Seq<char>) -> bool {
    spec_means_from_str(s) is Some
}

impl MeansOfDeath {
    /// The validator gate: maps a token to its variant, and rejects
    /// any token outside the closed enumeration.
    pub fn from_str(s: &str) -> (r: Option<MeansOfDeath>)
        ensures
            r == spec_means_from_str(s@),
            r is Some <==> is_recognized_means(s@),
    {
        if str_eq(s, "MOD_UNKNOWN") {
            Some(MeansOfDeath::ModUnknown)
        } else if str_eq(s, "MOD_SHOTGUN") {
            Some(MeansOfDeath::ModShotgun)
        } else if str_eq(s, "MOD_GAUNTLET") {
            Some(MeansOfDeath::ModGauntlet)
        } else if str_eq(s, "MOD_JUICED") {
            Some(MeansOfDeath::ModJuiced)
        } else if str_eq(s, "MOD_KAMIKAZE") {
            Some(MeansOfDeath::ModKamikaze)
        } else if str_eq(s, "MOD_PROXIMITY_MINE") {
            Some(MeansOfDeath::ModProximityMine)
        } else if str_eq(s, "MOD_CHAINGUN") {
            Some(MeansOfDeath::ModChaingun)
        } else if str_eq(s, "MOD_NAIL") {
            Some(MeansOfDeath::ModNail)
        } else if str_eq(s, "MOD_TRIGGER_HURT") {
            Some(MeansOfDeath::ModTriggerHurt)
        } else if str_eq(s, "MOD_TARGET_LASER") {
            Some(MeansOfDeath::ModTargetLaser)
        } else if str_eq(s, "MOD_SUICIDE") {
            Some(MeansOfDeath::ModSuicide)
        } else if str_eq(s, "MOD_FALLING") {
            Some(MeansOfDeath::ModFalling)
        } else if str_eq(s, "MOD_TELEFRAG") {
            Some(MeansOfDeath::ModTelefrag)
        } else if str_eq(s, "MOD_CRUSH") {
            Some(MeansOfDeath::ModCrush)
        } else if str_eq(s, "MOD_LAVA") {
            Some(MeansOfDeath::ModLava)
        } else if str_eq(s, "MOD_SLIME") {
            Some(MeansOfDeath::ModSlime)
        } else if str_eq(s, "MOD_WATER") {
            Some(MeansOfDeath::ModWater)
        } else if str_eq(s, "MOD_BFG_SPLASH") {
            Some(MeansOfDeath::ModBfgSplash)
        } else if str_eq(s, "MOD_BFG") {
            Some(MeansOfDeath::ModBfg)
        } else if str_eq(s, "MOD_LIGHTNING") {
            Some(MeansOfDeath::ModLightning)
        } else if str_eq(s, "MOD_RAILGUN") {
            Some(MeansOfDeath::ModRailgun)
        } else if str_eq(s, "MOD_PLASMA_SPLASH") {
            Some(MeansOfDeath::ModPlasmaSplash)
        } else if str_eq(s, "MOD_PLASMA") {
            Some(MeansOfDeath::ModPlasma)
        } else if str_eq(s, "MOD_ROCKET_SPLASH") {
            Some(MeansOfDeath::ModRocketSplash)
        } else if str_eq(s, "MOD_ROCKET") {
            Some(MeansOfDeath::ModRocket)
        } else if str_eq(s, "MOD_GRENADE_SPLASH") {
            Some(MeansOfDeath::ModGrenadeSplash)
        } else if str_eq(s, "MOD_GRENADE") {
            Some(MeansOfDeath::ModGrenade)
        } else if str_eq(s, "MOD_MACHINEGUN") {
            Some(MeansOfDeath::ModMachinegun)
        } else if str_eq(s, "MOD_GRAPPLE") {
            Some(MeansOfDeath::ModGrapple)
        } else {
            None
        }
    }
}

} // verus!
