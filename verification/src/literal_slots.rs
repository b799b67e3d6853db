//! The argument positions where a literal is rewritten under
//! `#!optimizeForSize`, keyed by catalog call name and argument position.
use vstd::prelude::*;
use crate::strings::str_eq;

verus! {

/// How a literal in one argument position is rewritten.
#[derive(Clone, Copy, Debug, PartialEq, Eq)]
pub enum Slot {
    /// `0` becomes `False` and `1` becomes `True`.
    Boolean,
    /// Only `1` becomes `True`.
    TrueOnly,
    /// Only `0` becomes `False`.
    FalseOnly,
    /// `0` becomes `Null`.
    ZeroAsNull,
    /// A zero vector becomes `Null`.
    ZeroVectorAsNull,
}

/// The positions where `0` and `1` stand for booleans.
pub open spec fn boolean_slot(name: Seq<char>, index: nat) -> bool {
    if name == "wait"@ || name == "skip"@ || name == "setMatchTime"@ || name
        == "getObjectivePosition"@ || name == "getPlayersInSlot"@ || name == "isObjectiveComplete"@ {
        index == 0
    } else if name == "skipIf"@ || name == "charAt"@ || name == "valueInArray"@ || name
        == "addToScore"@ || name == "addToTeamScore"@ || name == "setScore"@ || name
        == "setTeamScore"@ || name == "destroyDummy"@ || name == "getAmmo"@ || name
        == "getMaxAmmo"@ {
        index == 1
    } else if name == "max"@ || name == "min"@ || name == "randomInteger"@ {
        index <= 1
    } else if name == "subtract"@ {
        index == 0
    } else if name == "slice"@ {
        index == 1 || index == 2
    } else if name == "vector"@ {
        index <= 2
    } else if name == "chaseAtRate"@ || name == "chaseOverTime"@ {
        index == 1 || index == 2
    } else if name == "setAbilityCharge"@ || name == "setAbilityCooldown"@ || name
        == "setAbilityResource"@ {
        index == 2
    } else if name == "setAmmo"@ || name == "setMaxAmmo"@ {
        index == 1 || index == 2
    } else if name == "setGravity"@ || name == "setMoveSpeed"@ || name == "setProjectileGravity"@
        || name == "setProjectileSpeed"@ || name == "setRespawnTime"@ || name == "setUltCharge"@
        || name == "setWeapon"@ || name == "startModifyingVoicelinePitch"@ || name
        == "startScalingBarriers"@ || name == "startScalingSize"@ {
        index == 1
    } else if name == "setStatusEffect"@ {
        index == 3
    } else if name == "startForcingThrottle"@ {
        1 <= index <= 6
    } else if name == "createDummyBot"@ {
        index == 2
    } else if name == "createEffect"@ {
        index == 4
    } else if name == "createHudText"@ {
        index == 5
    } else if name == "createInWorldText"@ {
        index == 3
    } else {
        false
    }
}

/// How the literal at argument `index` of a call of `name` is rewritten.
pub open spec fn slot_spec(name: Seq<char>, index: nat) -> Option<Slot> {
    if name == "startForcingSpawn"@ && index == 1 {
        Some(Slot::FalseOnly)
    } else if (name == "add"@ && (index == 0 || index == 1)) || (name == "divide"@ && index == 0)
        || (name == "modulo"@ && (index == 0 || index == 1)) || (name == "subtract"@ && index
        == 1) {
        Some(Slot::TrueOnly)
    } else if (name == "attachTo"@ && index == 2) || (name == "createDummyBot"@ && (index == 3
        || index == 4)) || (name == "createInWorldText"@ && index == 2) {
        Some(Slot::ZeroVectorAsNull)
    } else if ((name == "appendToArray"@ || name == "arrayContains"@ || name
        == "indexOfArrayValue"@ || name == "removeFromArray"@) && index == 1) || (name
        == "array"@ && index == 0) || (name == "customString"@ && 1 <= index <= 3) || (name
        == "ifThenElse"@ && (index == 1 || index == 2)) || ((name == "bigMessage"@ || name
        == "smallMessage"@ || name == "setObjectiveDescription"@) && index == 1) || (name
        == "createInWorldText"@ && index == 1) || ((name == "startForcingPosition"@ || name
        == "teleport"@) && index == 1) {
        Some(Slot::ZeroAsNull)
    } else if boolean_slot(name, index) {
        Some(Slot::Boolean)
    } else {
        None
    }
}

/// Whether `0` and `1` at argument `index` of a call of `name` stand for
/// booleans.
pub fn is_boolean_slot(name: &str, index: usize) -> (r: bool)
    ensures
        r == boolean_slot(name@, index as nat),
{
    if str_eq(name, "wait") || str_eq(name, "skip") || str_eq(name, "setMatchTime") || str_eq(
        name,
        "getObjectivePosition",
    ) || str_eq(name, "getPlayersInSlot") || str_eq(name, "isObjectiveComplete") {
        index == 0
    } else if str_eq(name, "skipIf") || str_eq(name, "charAt") || str_eq(name, "valueInArray")
        || str_eq(name, "addToScore") || str_eq(name, "addToTeamScore") || str_eq(name, "setScore")
        || str_eq(name, "setTeamScore") || str_eq(name, "destroyDummy") || str_eq(name, "getAmmo")
        || str_eq(name, "getMaxAmmo") {
        index == 1
    } else if str_eq(name, "max") || str_eq(name, "min") || str_eq(name, "randomInteger") {
        index <= 1
    } else if str_eq(name, "subtract") {
        index == 0
    } else if str_eq(name, "slice") {
        index == 1 || index == 2
    } else if str_eq(name, "vector") {
        index <= 2
    } else if str_eq(name, "chaseAtRate") || str_eq(name, "chaseOverTime") {
        index == 1 || index == 2
    } else if str_eq(name, "setAbilityCharge") || str_eq(name, "setAbilityCooldown") || str_eq(
        name,
        "setAbilityResource",
    ) {
        index == 2
    } else if str_eq(name, "setAmmo") || str_eq(name, "setMaxAmmo") {
        index == 1 || index == 2
    } else if str_eq(name, "setGravity") || str_eq(name, "setMoveSpeed") || str_eq(
        name,
        "setProjectileGravity",
    ) || str_eq(name, "setProjectileSpeed") || str_eq(name, "setRespawnTime") || str_eq(
        name,
        "setUltCharge",
    ) || str_eq(name, "setWeapon") || str_eq(name, "startModifyingVoicelinePitch") || str_eq(
        name,
        "startScalingBarriers",
    ) || str_eq(name, "startScalingSize") {
        index == 1
    } else if str_eq(name, "setStatusEffect") {
        index == 3
    } else if str_eq(name, "startForcingThrottle") {
        1 <= index && index <= 6
    } else if str_eq(name, "createDummyBot") {
        index == 2
    } else if str_eq(name, "createEffect") {
        index == 4
    } else if str_eq(name, "createHudText") {
        index == 5
    } else if str_eq(name, "createInWorldText") {
        index == 3
    } else {
        false
    }
}

/// How the literal at argument `index` of a call of `name` is rewritten
/// under `#!optimizeForSize`, if it is.
pub fn slot(name: &str, index: usize) -> (r: Option<Slot>)
    ensures
        r == slot_spec(name@, index as nat),
{
    if str_eq(name, "startForcingSpawn") && index == 1 {
        Some(Slot::FalseOnly)
    } else if (str_eq(name, "add") && (index == 0 || index == 1)) || (str_eq(name, "divide")
        && index == 0) || (str_eq(name, "modulo") && (index == 0 || index == 1)) || (str_eq(
        name,
        "subtract",
    ) && index == 1) {
        Some(Slot::TrueOnly)
    } else if (str_eq(name, "attachTo") && index == 2) || (str_eq(name, "createDummyBot") && (index
        == 3 || index == 4)) || (str_eq(name, "createInWorldText") && index == 2) {
        Some(Slot::ZeroVectorAsNull)
    } else if ((str_eq(name, "appendToArray") || str_eq(name, "arrayContains") || str_eq(
        name,
        "indexOfArrayValue",
    ) || str_eq(name, "removeFromArray")) && index == 1) || (str_eq(name, "array") && index == 0)
        || (str_eq(name, "customString") && 1 <= index && index <= 3) || (str_eq(name, "ifThenElse")
        && (index == 1 || index == 2)) || ((str_eq(name, "bigMessage") || str_eq(
        name,
        "smallMessage",
    ) || str_eq(name, "setObjectiveDescription")) && index == 1) || (str_eq(
        name,
        "createInWorldText",
    ) && index == 1) || ((str_eq(name, "startForcingPosition") || str_eq(name, "teleport"))
        && index == 1) {
        Some(Slot::ZeroAsNull)
    } else if is_boolean_slot(name, index) {
        Some(Slot::Boolean)
    } else {
        None
    }
}


/// A position where `0` and `1` stand for booleans is rewritten as a
/// boolean: no other rewrite of a call claims it first.
pub proof fn lemma_boolean_slots_are_slots(name: Seq<char>, index: nat)
    ensures
        boolean_slot(name, index) == (slot_spec(name, index) == Some(Slot::Boolean)),
{
    reveal_strlit("add"); reveal_strlit("addToScore"); reveal_strlit("addToTeamScore");
    reveal_strlit("appendToArray"); reveal_strlit("array"); reveal_strlit("arrayContains");
    reveal_strlit("attachTo"); reveal_strlit("bigMessage"); reveal_strlit("charAt");
    reveal_strlit("chaseAtRate"); reveal_strlit("chaseOverTime"); reveal_strlit("createDummyBot");
    reveal_strlit("createEffect"); reveal_strlit("createHudText"); reveal_strlit("createInWorldText");
    reveal_strlit("customString"); reveal_strlit("destroyDummy"); reveal_strlit("divide");
    reveal_strlit("getAmmo"); reveal_strlit("getMaxAmmo"); reveal_strlit("getObjectivePosition");
    reveal_strlit("getPlayersInSlot"); reveal_strlit("ifThenElse"); reveal_strlit("indexOfArrayValue");
    reveal_strlit("isObjectiveComplete"); reveal_strlit("max"); reveal_strlit("min");
    reveal_strlit("modulo"); reveal_strlit("randomInteger"); reveal_strlit("removeFromArray");
    reveal_strlit("setAbilityCharge"); reveal_strlit("setAbilityCooldown"); reveal_strlit("setAbilityResource");
    reveal_strlit("setAmmo"); reveal_strlit("setGravity"); reveal_strlit("setMatchTime");
    reveal_strlit("setMaxAmmo"); reveal_strlit("setMoveSpeed"); reveal_strlit("setObjectiveDescription");
    reveal_strlit("setProjectileGravity"); reveal_strlit("setProjectileSpeed"); reveal_strlit("setRespawnTime");
    reveal_strlit("setScore"); reveal_strlit("setStatusEffect"); reveal_strlit("setTeamScore");
    reveal_strlit("setUltCharge"); reveal_strlit("setWeapon"); reveal_strlit("skip");
    reveal_strlit("skipIf"); reveal_strlit("slice"); reveal_strlit("smallMessage");
    reveal_strlit("startForcingPosition"); reveal_strlit("startForcingSpawn"); reveal_strlit("startForcingThrottle");
    reveal_strlit("startModifyingVoicelinePitch"); reveal_strlit("startScalingBarriers"); reveal_strlit("startScalingSize");
    reveal_strlit("subtract"); reveal_strlit("teleport"); reveal_strlit("valueInArray");
    reveal_strlit("vector"); reveal_strlit("wait");
    if name == "add"@ {
        assert("add"@[0] != "max"@[0]);
        assert("add"@[0] != "min"@[0]);
        assert("addToScore"@.len() != 3 && "addToTeamScore"@.len() != 3 && "charAt"@.len() != 3 && "chaseAtRate"@.len() != 3 && "chaseOverTime"@.len() != 3 && "createDummyBot"@.len() != 3 && "createEffect"@.len() != 3 && "createHudText"@.len() != 3 && "createInWorldText"@.len() != 3 && "destroyDummy"@.len() != 3 && "getAmmo"@.len() != 3 && "getMaxAmmo"@.len() != 3 && "getObjectivePosition"@.len() != 3 && "getPlayersInSlot"@.len() != 3 && "isObjectiveComplete"@.len() != 3 && "randomInteger"@.len() != 3 && "setAbilityCharge"@.len() != 3 && "setAbilityCooldown"@.len() != 3 && "setAbilityResource"@.len() != 3 && "setAmmo"@.len() != 3 && "setGravity"@.len() != 3 && "setMatchTime"@.len() != 3 && "setMaxAmmo"@.len() != 3 && "setMoveSpeed"@.len() != 3 && "setProjectileGravity"@.len() != 3 && "setProjectileSpeed"@.len() != 3 && "setRespawnTime"@.len() != 3 && "setScore"@.len() != 3 && "setStatusEffect"@.len() != 3 && "setTeamScore"@.len() != 3 && "setUltCharge"@.len() != 3 && "setWeapon"@.len() != 3 && "skip"@.len() != 3 && "skipIf"@.len() != 3 && "slice"@.len() != 3 && "startForcingThrottle"@.len() != 3 && "startModifyingVoicelinePitch"@.len() != 3 && "startScalingBarriers"@.len() != 3 && "startScalingSize"@.len() != 3 && "subtract"@.len() != 3 && "valueInArray"@.len() != 3 && "vector"@.len() != 3 && "wait"@.len() != 3);
    }
    if name == "appendToArray"@ {
        assert("appendToArray"@[0] != "chaseOverTime"@[0]);
        assert("appendToArray"@[0] != "createHudText"@[0]);
        assert("appendToArray"@[0] != "randomInteger"@[0]);
        assert("addToScore"@.len() != 13 && "addToTeamScore"@.len() != 13 && "charAt"@.len() != 13 && "chaseAtRate"@.len() != 13 && "createDummyBot"@.len() != 13 && "createEffect"@.len() != 13 && "createInWorldText"@.len() != 13 && "destroyDummy"@.len() != 13 && "getAmmo"@.len() != 13 && "getMaxAmmo"@.len() != 13 && "getObjectivePosition"@.len() != 13 && "getPlayersInSlot"@.len() != 13 && "isObjectiveComplete"@.len() != 13 && "max"@.len() != 13 && "min"@.len() != 13 && "setAbilityCharge"@.len() != 13 && "setAbilityCooldown"@.len() != 13 && "setAbilityResource"@.len() != 13 && "setAmmo"@.len() != 13 && "setGravity"@.len() != 13 && "setMatchTime"@.len() != 13 && "setMaxAmmo"@.len() != 13 && "setMoveSpeed"@.len() != 13 && "setProjectileGravity"@.len() != 13 && "setProjectileSpeed"@.len() != 13 && "setRespawnTime"@.len() != 13 && "setScore"@.len() != 13 && "setStatusEffect"@.len() != 13 && "setTeamScore"@.len() != 13 && "setUltCharge"@.len() != 13 && "setWeapon"@.len() != 13 && "skip"@.len() != 13 && "skipIf"@.len() != 13 && "slice"@.len() != 13 && "startForcingThrottle"@.len() != 13 && "startModifyingVoicelinePitch"@.len() != 13 && "startScalingBarriers"@.len() != 13 && "startScalingSize"@.len() != 13 && "subtract"@.len() != 13 && "valueInArray"@.len() != 13 && "vector"@.len() != 13 && "wait"@.len() != 13);
    }
    if name == "array"@ {
        assert("array"@[0] != "slice"@[0]);
        assert("addToScore"@.len() != 5 && "addToTeamScore"@.len() != 5 && "charAt"@.len() != 5 && "chaseAtRate"@.len() != 5 && "chaseOverTime"@.len() != 5 && "createDummyBot"@.len() != 5 && "createEffect"@.len() != 5 && "createHudText"@.len() != 5 && "createInWorldText"@.len() != 5 && "destroyDummy"@.len() != 5 && "getAmmo"@.len() != 5 && "getMaxAmmo"@.len() != 5 && "getObjectivePosition"@.len() != 5 && "getPlayersInSlot"@.len() != 5 && "isObjectiveComplete"@.len() != 5 && "max"@.len() != 5 && "min"@.len() != 5 && "randomInteger"@.len() != 5 && "setAbilityCharge"@.len() != 5 && "setAbilityCooldown"@.len() != 5 && "setAbilityResource"@.len() != 5 && "setAmmo"@.len() != 5 && "setGravity"@.len() != 5 && "setMatchTime"@.len() != 5 && "setMaxAmmo"@.len() != 5 && "setMoveSpeed"@.len() != 5 && "setProjectileGravity"@.len() != 5 && "setProjectileSpeed"@.len() != 5 && "setRespawnTime"@.len() != 5 && "setScore"@.len() != 5 && "setStatusEffect"@.len() != 5 && "setTeamScore"@.len() != 5 && "setUltCharge"@.len() != 5 && "setWeapon"@.len() != 5 && "skip"@.len() != 5 && "skipIf"@.len() != 5 && "startForcingThrottle"@.len() != 5 && "startModifyingVoicelinePitch"@.len() != 5 && "startScalingBarriers"@.len() != 5 && "startScalingSize"@.len() != 5 && "subtract"@.len() != 5 && "valueInArray"@.len() != 5 && "vector"@.len() != 5 && "wait"@.len() != 5);
    }
    if name == "arrayContains"@ {
        assert("arrayContains"@[0] != "chaseOverTime"@[0]);
        assert("arrayContains"@[0] != "createHudText"@[0]);
        assert("arrayContains"@[0] != "randomInteger"@[0]);
        assert("addToScore"@.len() != 13 && "addToTeamScore"@.len() != 13 && "charAt"@.len() != 13 && "chaseAtRate"@.len() != 13 && "createDummyBot"@.len() != 13 && "createEffect"@.len() != 13 && "createInWorldText"@.len() != 13 && "destroyDummy"@.len() != 13 && "getAmmo"@.len() != 13 && "getMaxAmmo"@.len() != 13 && "getObjectivePosition"@.len() != 13 && "getPlayersInSlot"@.len() != 13 && "isObjectiveComplete"@.len() != 13 && "max"@.len() != 13 && "min"@.len() != 13 && "setAbilityCharge"@.len() != 13 && "setAbilityCooldown"@.len() != 13 && "setAbilityResource"@.len() != 13 && "setAmmo"@.len() != 13 && "setGravity"@.len() != 13 && "setMatchTime"@.len() != 13 && "setMaxAmmo"@.len() != 13 && "setMoveSpeed"@.len() != 13 && "setProjectileGravity"@.len() != 13 && "setProjectileSpeed"@.len() != 13 && "setRespawnTime"@.len() != 13 && "setScore"@.len() != 13 && "setStatusEffect"@.len() != 13 && "setTeamScore"@.len() != 13 && "setUltCharge"@.len() != 13 && "setWeapon"@.len() != 13 && "skip"@.len() != 13 && "skipIf"@.len() != 13 && "slice"@.len() != 13 && "startForcingThrottle"@.len() != 13 && "startModifyingVoicelinePitch"@.len() != 13 && "startScalingBarriers"@.len() != 13 && "startScalingSize"@.len() != 13 && "subtract"@.len() != 13 && "valueInArray"@.len() != 13 && "vector"@.len() != 13 && "wait"@.len() != 13);
    }
    if name == "attachTo"@ {
        assert("attachTo"@[0] != "setScore"@[0]);
        assert("attachTo"@[0] != "subtract"@[0]);
        assert("addToScore"@.len() != 8 && "addToTeamScore"@.len() != 8 && "charAt"@.len() != 8 && "chaseAtRate"@.len() != 8 && "chaseOverTime"@.len() != 8 && "createDummyBot"@.len() != 8 && "createEffect"@.len() != 8 && "createHudText"@.len() != 8 && "createInWorldText"@.len() != 8 && "destroyDummy"@.len() != 8 && "getAmmo"@.len() != 8 && "getMaxAmmo"@.len() != 8 && "getObjectivePosition"@.len() != 8 && "getPlayersInSlot"@.len() != 8 && "isObjectiveComplete"@.len() != 8 && "max"@.len() != 8 && "min"@.len() != 8 && "randomInteger"@.len() != 8 && "setAbilityCharge"@.len() != 8 && "setAbilityCooldown"@.len() != 8 && "setAbilityResource"@.len() != 8 && "setAmmo"@.len() != 8 && "setGravity"@.len() != 8 && "setMatchTime"@.len() != 8 && "setMaxAmmo"@.len() != 8 && "setMoveSpeed"@.len() != 8 && "setProjectileGravity"@.len() != 8 && "setProjectileSpeed"@.len() != 8 && "setRespawnTime"@.len() != 8 && "setStatusEffect"@.len() != 8 && "setTeamScore"@.len() != 8 && "setUltCharge"@.len() != 8 && "setWeapon"@.len() != 8 && "skip"@.len() != 8 && "skipIf"@.len() != 8 && "slice"@.len() != 8 && "startForcingThrottle"@.len() != 8 && "startModifyingVoicelinePitch"@.len() != 8 && "startScalingBarriers"@.len() != 8 && "startScalingSize"@.len() != 8 && "valueInArray"@.len() != 8 && "vector"@.len() != 8 && "wait"@.len() != 8);
    }
    if name == "bigMessage"@ {
        assert("bigMessage"@[0] != "addToScore"@[0]);
        assert("bigMessage"@[0] != "getMaxAmmo"@[0]);
        assert("bigMessage"@[0] != "setGravity"@[0]);
        assert("bigMessage"@[0] != "setMaxAmmo"@[0]);
        assert("addToTeamScore"@.len() != 10 && "charAt"@.len() != 10 && "chaseAtRate"@.len() != 10 && "chaseOverTime"@.len() != 10 && "createDummyBot"@.len() != 10 && "createEffect"@.len() != 10 && "createHudText"@.len() != 10 && "createInWorldText"@.len() != 10 && "destroyDummy"@.len() != 10 && "getAmmo"@.len() != 10 && "getObjectivePosition"@.len() != 10 && "getPlayersInSlot"@.len() != 10 && "isObjectiveComplete"@.len() != 10 && "max"@.len() != 10 && "min"@.len() != 10 && "randomInteger"@.len() != 10 && "setAbilityCharge"@.len() != 10 && "setAbilityCooldown"@.len() != 10 && "setAbilityResource"@.len() != 10 && "setAmmo"@.len() != 10 && "setMatchTime"@.len() != 10 && "setMoveSpeed"@.len() != 10 && "setProjectileGravity"@.len() != 10 && "setProjectileSpeed"@.len() != 10 && "setRespawnTime"@.len() != 10 && "setScore"@.len() != 10 && "setStatusEffect"@.len() != 10 && "setTeamScore"@.len() != 10 && "setUltCharge"@.len() != 10 && "setWeapon"@.len() != 10 && "skip"@.len() != 10 && "skipIf"@.len() != 10 && "slice"@.len() != 10 && "startForcingThrottle"@.len() != 10 && "startModifyingVoicelinePitch"@.len() != 10 && "startScalingBarriers"@.len() != 10 && "startScalingSize"@.len() != 10 && "subtract"@.len() != 10 && "valueInArray"@.len() != 10 && "vector"@.len() != 10 && "wait"@.len() != 10);
    }
    if name == "createDummyBot"@ {
        assert("createDummyBot"@[0] != "addToTeamScore"@[0]);
        assert("createDummyBot"@[0] != "setRespawnTime"@[0]);
        assert("addToScore"@.len() != 14 && "charAt"@.len() != 14 && "chaseAtRate"@.len() != 14 && "chaseOverTime"@.len() != 14 && "createEffect"@.len() != 14 && "createHudText"@.len() != 14 && "createInWorldText"@.len() != 14 && "destroyDummy"@.len() != 14 && "getAmmo"@.len() != 14 && "getMaxAmmo"@.len() != 14 && "getObjectivePosition"@.len() != 14 && "getPlayersInSlot"@.len() != 14 && "isObjectiveComplete"@.len() != 14 && "max"@.len() != 14 && "min"@.len() != 14 && "randomInteger"@.len() != 14 && "setAbilityCharge"@.len() != 14 && "setAbilityCooldown"@.len() != 14 && "setAbilityResource"@.len() != 14 && "setAmmo"@.len() != 14 && "setGravity"@.len() != 14 && "setMatchTime"@.len() != 14 && "setMaxAmmo"@.len() != 14 && "setMoveSpeed"@.len() != 14 && "setProjectileGravity"@.len() != 14 && "setProjectileSpeed"@.len() != 14 && "setScore"@.len() != 14 && "setStatusEffect"@.len() != 14 && "setTeamScore"@.len() != 14 && "setUltCharge"@.len() != 14 && "setWeapon"@.len() != 14 && "skip"@.len() != 14 && "skipIf"@.len() != 14 && "slice"@.len() != 14 && "startForcingThrottle"@.len() != 14 && "startModifyingVoicelinePitch"@.len() != 14 && "startScalingBarriers"@.len() != 14 && "startScalingSize"@.len() != 14 && "subtract"@.len() != 14 && "valueInArray"@.len() != 14 && "vector"@.len() != 14 && "wait"@.len() != 14);
    }
    if name == "createInWorldText"@ {
        assert("addToScore"@.len() != 17 && "addToTeamScore"@.len() != 17 && "charAt"@.len() != 17 && "chaseAtRate"@.len() != 17 && "chaseOverTime"@.len() != 17 && "createDummyBot"@.len() != 17 && "createEffect"@.len() != 17 && "createHudText"@.len() != 17 && "destroyDummy"@.len() != 17 && "getAmmo"@.len() != 17 && "getMaxAmmo"@.len() != 17 && "getObjectivePosition"@.len() != 17 && "getPlayersInSlot"@.len() != 17 && "isObjectiveComplete"@.len() != 17 && "max"@.len() != 17 && "min"@.len() != 17 && "randomInteger"@.len() != 17 && "setAbilityCharge"@.len() != 17 && "setAbilityCooldown"@.len() != 17 && "setAbilityResource"@.len() != 17 && "setAmmo"@.len() != 17 && "setGravity"@.len() != 17 && "setMatchTime"@.len() != 17 && "setMaxAmmo"@.len() != 17 && "setMoveSpeed"@.len() != 17 && "setProjectileGravity"@.len() != 17 && "setProjectileSpeed"@.len() != 17 && "setRespawnTime"@.len() != 17 && "setScore"@.len() != 17 && "setStatusEffect"@.len() != 17 && "setTeamScore"@.len() != 17 && "setUltCharge"@.len() != 17 && "setWeapon"@.len() != 17 && "skip"@.len() != 17 && "skipIf"@.len() != 17 && "slice"@.len() != 17 && "startForcingThrottle"@.len() != 17 && "startModifyingVoicelinePitch"@.len() != 17 && "startScalingBarriers"@.len() != 17 && "startScalingSize"@.len() != 17 && "subtract"@.len() != 17 && "valueInArray"@.len() != 17 && "vector"@.len() != 17 && "wait"@.len() != 17);
    }
    if name == "customString"@ {
        assert("customString"@[1] != "createEffect"@[1]);
        assert("customString"@[0] != "destroyDummy"@[0]);
        assert("customString"@[0] != "setMatchTime"@[0]);
        assert("customString"@[0] != "setMoveSpeed"@[0]);
        assert("customString"@[0] != "setTeamScore"@[0]);
        assert("customString"@[0] != "setUltCharge"@[0]);
        assert("customString"@[0] != "valueInArray"@[0]);
        assert("addToScore"@.len() != 12 && "addToTeamScore"@.len() != 12 && "charAt"@.len() != 12 && "chaseAtRate"@.len() != 12 && "chaseOverTime"@.len() != 12 && "createDummyBot"@.len() != 12 && "createHudText"@.len() != 12 && "createInWorldText"@.len() != 12 && "getAmmo"@.len() != 12 && "getMaxAmmo"@.len() != 12 && "getObjectivePosition"@.len() != 12 && "getPlayersInSlot"@.len() != 12 && "isObjectiveComplete"@.len() != 12 && "max"@.len() != 12 && "min"@.len() != 12 && "randomInteger"@.len() != 12 && "setAbilityCharge"@.len() != 12 && "setAbilityCooldown"@.len() != 12 && "setAbilityResource"@.len() != 12 && "setAmmo"@.len() != 12 && "setGravity"@.len() != 12 && "setMaxAmmo"@.len() != 12 && "setProjectileGravity"@.len() != 12 && "setProjectileSpeed"@.len() != 12 && "setRespawnTime"@.len() != 12 && "setScore"@.len() != 12 && "setStatusEffect"@.len() != 12 && "setWeapon"@.len() != 12 && "skip"@.len() != 12 && "skipIf"@.len() != 12 && "slice"@.len() != 12 && "startForcingThrottle"@.len() != 12 && "startModifyingVoicelinePitch"@.len() != 12 && "startScalingBarriers"@.len() != 12 && "startScalingSize"@.len() != 12 && "subtract"@.len() != 12 && "vector"@.len() != 12 && "wait"@.len() != 12);
    }
    if name == "divide"@ {
        assert("divide"@[0] != "charAt"@[0]);
        assert("divide"@[0] != "skipIf"@[0]);
        assert("divide"@[0] != "vector"@[0]);
        assert("addToScore"@.len() != 6 && "addToTeamScore"@.len() != 6 && "chaseAtRate"@.len() != 6 && "chaseOverTime"@.len() != 6 && "createDummyBot"@.len() != 6 && "createEffect"@.len() != 6 && "createHudText"@.len() != 6 && "createInWorldText"@.len() != 6 && "destroyDummy"@.len() != 6 && "getAmmo"@.len() != 6 && "getMaxAmmo"@.len() != 6 && "getObjectivePosition"@.len() != 6 && "getPlayersInSlot"@.len() != 6 && "isObjectiveComplete"@.len() != 6 && "max"@.len() != 6 && "min"@.len() != 6 && "randomInteger"@.len() != 6 && "setAbilityCharge"@.len() != 6 && "setAbilityCooldown"@.len() != 6 && "setAbilityResource"@.len() != 6 && "setAmmo"@.len() != 6 && "setGravity"@.len() != 6 && "setMatchTime"@.len() != 6 && "setMaxAmmo"@.len() != 6 && "setMoveSpeed"@.len() != 6 && "setProjectileGravity"@.len() != 6 && "setProjectileSpeed"@.len() != 6 && "setRespawnTime"@.len() != 6 && "setScore"@.len() != 6 && "setStatusEffect"@.len() != 6 && "setTeamScore"@.len() != 6 && "setUltCharge"@.len() != 6 && "setWeapon"@.len() != 6 && "skip"@.len() != 6 && "slice"@.len() != 6 && "startForcingThrottle"@.len() != 6 && "startModifyingVoicelinePitch"@.len() != 6 && "startScalingBarriers"@.len() != 6 && "startScalingSize"@.len() != 6 && "subtract"@.len() != 6 && "valueInArray"@.len() != 6 && "wait"@.len() != 6);
    }
    if name == "ifThenElse"@ {
        assert("ifThenElse"@[0] != "addToScore"@[0]);
        assert("ifThenElse"@[0] != "getMaxAmmo"@[0]);
        assert("ifThenElse"@[0] != "setGravity"@[0]);
        assert("ifThenElse"@[0] != "setMaxAmmo"@[0]);
        assert("addToTeamScore"@.len() != 10 && "charAt"@.len() != 10 && "chaseAtRate"@.len() != 10 && "chaseOverTime"@.len() != 10 && "createDummyBot"@.len() != 10 && "createEffect"@.len() != 10 && "createHudText"@.len() != 10 && "createInWorldText"@.len() != 10 && "destroyDummy"@.len() != 10 && "getAmmo"@.len() != 10 && "getObjectivePosition"@.len() != 10 && "getPlayersInSlot"@.len() != 10 && "isObjectiveComplete"@.len() != 10 && "max"@.len() != 10 && "min"@.len() != 10 && "randomInteger"@.len() != 10 && "setAbilityCharge"@.len() != 10 && "setAbilityCooldown"@.len() != 10 && "setAbilityResource"@.len() != 10 && "setAmmo"@.len() != 10 && "setMatchTime"@.len() != 10 && "setMoveSpeed"@.len() != 10 && "setProjectileGravity"@.len() != 10 && "setProjectileSpeed"@.len() != 10 && "setRespawnTime"@.len() != 10 && "setScore"@.len() != 10 && "setStatusEffect"@.len() != 10 && "setTeamScore"@.len() != 10 && "setUltCharge"@.len() != 10 && "setWeapon"@.len() != 10 && "skip"@.len() != 10 && "skipIf"@.len() != 10 && "slice"@.len() != 10 && "startForcingThrottle"@.len() != 10 && "startModifyingVoicelinePitch"@.len() != 10 && "startScalingBarriers"@.len() != 10 && "startScalingSize"@.len() != 10 && "subtract"@.len() != 10 && "valueInArray"@.len() != 10 && "vector"@.len() != 10 && "wait"@.len() != 10);
    }
    if name == "indexOfArrayValue"@ {
        assert("indexOfArrayValue"@[0] != "createInWorldText"@[0]);
        assert("addToScore"@.len() != 17 && "addToTeamScore"@.len() != 17 && "charAt"@.len() != 17 && "chaseAtRate"@.len() != 17 && "chaseOverTime"@.len() != 17 && "createDummyBot"@.len() != 17 && "createEffect"@.len() != 17 && "createHudText"@.len() != 17 && "destroyDummy"@.len() != 17 && "getAmmo"@.len() != 17 && "getMaxAmmo"@.len() != 17 && "getObjectivePosition"@.len() != 17 && "getPlayersInSlot"@.len() != 17 && "isObjectiveComplete"@.len() != 17 && "max"@.len() != 17 && "min"@.len() != 17 && "randomInteger"@.len() != 17 && "setAbilityCharge"@.len() != 17 && "setAbilityCooldown"@.len() != 17 && "setAbilityResource"@.len() != 17 && "setAmmo"@.len() != 17 && "setGravity"@.len() != 17 && "setMatchTime"@.len() != 17 && "setMaxAmmo"@.len() != 17 && "setMoveSpeed"@.len() != 17 && "setProjectileGravity"@.len() != 17 && "setProjectileSpeed"@.len() != 17 && "setRespawnTime"@.len() != 17 && "setScore"@.len() != 17 && "setStatusEffect"@.len() != 17 && "setTeamScore"@.len() != 17 && "setUltCharge"@.len() != 17 && "setWeapon"@.len() != 17 && "skip"@.len() != 17 && "skipIf"@.len() != 17 && "slice"@.len() != 17 && "startForcingThrottle"@.len() != 17 && "startModifyingVoicelinePitch"@.len() != 17 && "startScalingBarriers"@.len() != 17 && "startScalingSize"@.len() != 17 && "subtract"@.len() != 17 && "valueInArray"@.len() != 17 && "vector"@.len() != 17 && "wait"@.len() != 17);
    }
    if name == "modulo"@ {
        assert("modulo"@[0] != "charAt"@[0]);
        assert("modulo"@[0] != "skipIf"@[0]);
        assert("modulo"@[0] != "vector"@[0]);
        assert("addToScore"@.len() != 6 && "addToTeamScore"@.len() != 6 && "chaseAtRate"@.len() != 6 && "chaseOverTime"@.len() != 6 && "createDummyBot"@.len() != 6 && "createEffect"@.len() != 6 && "createHudText"@.len() != 6 && "createInWorldText"@.len() != 6 && "destroyDummy"@.len() != 6 && "getAmmo"@.len() != 6 && "getMaxAmmo"@.len() != 6 && "getObjectivePosition"@.len() != 6 && "getPlayersInSlot"@.len() != 6 && "isObjectiveComplete"@.len() != 6 && "max"@.len() != 6 && "min"@.len() != 6 && "randomInteger"@.len() != 6 && "setAbilityCharge"@.len() != 6 && "setAbilityCooldown"@.len() != 6 && "setAbilityResource"@.len() != 6 && "setAmmo"@.len() != 6 && "setGravity"@.len() != 6 && "setMatchTime"@.len() != 6 && "setMaxAmmo"@.len() != 6 && "setMoveSpeed"@.len() != 6 && "setProjectileGravity"@.len() != 6 && "setProjectileSpeed"@.len() != 6 && "setRespawnTime"@.len() != 6 && "setScore"@.len() != 6 && "setStatusEffect"@.len() != 6 && "setTeamScore"@.len() != 6 && "setUltCharge"@.len() != 6 && "setWeapon"@.len() != 6 && "skip"@.len() != 6 && "slice"@.len() != 6 && "startForcingThrottle"@.len() != 6 && "startModifyingVoicelinePitch"@.len() != 6 && "startScalingBarriers"@.len() != 6 && "startScalingSize"@.len() != 6 && "subtract"@.len() != 6 && "valueInArray"@.len() != 6 && "wait"@.len() != 6);
    }
    if name == "removeFromArray"@ {
        assert("removeFromArray"@[0] != "setStatusEffect"@[0]);
        assert("addToScore"@.len() != 15 && "addToTeamScore"@.len() != 15 && "charAt"@.len() != 15 && "chaseAtRate"@.len() != 15 && "chaseOverTime"@.len() != 15 && "createDummyBot"@.len() != 15 && "createEffect"@.len() != 15 && "createHudText"@.len() != 15 && "createInWorldText"@.len() != 15 && "destroyDummy"@.len() != 15 && "getAmmo"@.len() != 15 && "getMaxAmmo"@.len() != 15 && "getObjectivePosition"@.len() != 15 && "getPlayersInSlot"@.len() != 15 && "isObjectiveComplete"@.len() != 15 && "max"@.len() != 15 && "min"@.len() != 15 && "randomInteger"@.len() != 15 && "setAbilityCharge"@.len() != 15 && "setAbilityCooldown"@.len() != 15 && "setAbilityResource"@.len() != 15 && "setAmmo"@.len() != 15 && "setGravity"@.len() != 15 && "setMatchTime"@.len() != 15 && "setMaxAmmo"@.len() != 15 && "setMoveSpeed"@.len() != 15 && "setProjectileGravity"@.len() != 15 && "setProjectileSpeed"@.len() != 15 && "setRespawnTime"@.len() != 15 && "setScore"@.len() != 15 && "setTeamScore"@.len() != 15 && "setUltCharge"@.len() != 15 && "setWeapon"@.len() != 15 && "skip"@.len() != 15 && "skipIf"@.len() != 15 && "slice"@.len() != 15 && "startForcingThrottle"@.len() != 15 && "startModifyingVoicelinePitch"@.len() != 15 && "startScalingBarriers"@.len() != 15 && "startScalingSize"@.len() != 15 && "subtract"@.len() != 15 && "valueInArray"@.len() != 15 && "vector"@.len() != 15 && "wait"@.len() != 15);
    }
    if name == "setObjectiveDescription"@ {
        assert("addToScore"@.len() != 23 && "addToTeamScore"@.len() != 23 && "charAt"@.len() != 23 && "chaseAtRate"@.len() != 23 && "chaseOverTime"@.len() != 23 && "createDummyBot"@.len() != 23 && "createEffect"@.len() != 23 && "createHudText"@.len() != 23 && "createInWorldText"@.len() != 23 && "destroyDummy"@.len() != 23 && "getAmmo"@.len() != 23 && "getMaxAmmo"@.len() != 23 && "getObjectivePosition"@.len() != 23 && "getPlayersInSlot"@.len() != 23 && "isObjectiveComplete"@.len() != 23 && "max"@.len() != 23 && "min"@.len() != 23 && "randomInteger"@.len() != 23 && "setAbilityCharge"@.len() != 23 && "setAbilityCooldown"@.len() != 23 && "setAbilityResource"@.len() != 23 && "setAmmo"@.len() != 23 && "setGravity"@.len() != 23 && "setMatchTime"@.len() != 23 && "setMaxAmmo"@.len() != 23 && "setMoveSpeed"@.len() != 23 && "setProjectileGravity"@.len() != 23 && "setProjectileSpeed"@.len() != 23 && "setRespawnTime"@.len() != 23 && "setScore"@.len() != 23 && "setStatusEffect"@.len() != 23 && "setTeamScore"@.len() != 23 && "setUltCharge"@.len() != 23 && "setWeapon"@.len() != 23 && "skip"@.len() != 23 && "skipIf"@.len() != 23 && "slice"@.len() != 23 && "startForcingThrottle"@.len() != 23 && "startModifyingVoicelinePitch"@.len() != 23 && "startScalingBarriers"@.len() != 23 && "startScalingSize"@.len() != 23 && "subtract"@.len() != 23 && "valueInArray"@.len() != 23 && "vector"@.len() != 23 && "wait"@.len() != 23);
    }
    if name == "smallMessage"@ {
        assert("smallMessage"@[0] != "createEffect"@[0]);
        assert("smallMessage"@[0] != "destroyDummy"@[0]);
        assert("smallMessage"@[1] != "setMatchTime"@[1]);
        assert("smallMessage"@[1] != "setMoveSpeed"@[1]);
        assert("smallMessage"@[1] != "setTeamScore"@[1]);
        assert("smallMessage"@[1] != "setUltCharge"@[1]);
        assert("smallMessage"@[0] != "valueInArray"@[0]);
        assert("addToScore"@.len() != 12 && "addToTeamScore"@.len() != 12 && "charAt"@.len() != 12 && "chaseAtRate"@.len() != 12 && "chaseOverTime"@.len() != 12 && "createDummyBot"@.len() != 12 && "createHudText"@.len() != 12 && "createInWorldText"@.len() != 12 && "getAmmo"@.len() != 12 && "getMaxAmmo"@.len() != 12 && "getObjectivePosition"@.len() != 12 && "getPlayersInSlot"@.len() != 12 && "isObjectiveComplete"@.len() != 12 && "max"@.len() != 12 && "min"@.len() != 12 && "randomInteger"@.len() != 12 && "setAbilityCharge"@.len() != 12 && "setAbilityCooldown"@.len() != 12 && "setAbilityResource"@.len() != 12 && "setAmmo"@.len() != 12 && "setGravity"@.len() != 12 && "setMaxAmmo"@.len() != 12 && "setProjectileGravity"@.len() != 12 && "setProjectileSpeed"@.len() != 12 && "setRespawnTime"@.len() != 12 && "setScore"@.len() != 12 && "setStatusEffect"@.len() != 12 && "setWeapon"@.len() != 12 && "skip"@.len() != 12 && "skipIf"@.len() != 12 && "slice"@.len() != 12 && "startForcingThrottle"@.len() != 12 && "startModifyingVoicelinePitch"@.len() != 12 && "startScalingBarriers"@.len() != 12 && "startScalingSize"@.len() != 12 && "subtract"@.len() != 12 && "vector"@.len() != 12 && "wait"@.len() != 12);
    }
    if name == "startForcingPosition"@ {
        assert("startForcingPosition"@[0] != "getObjectivePosition"@[0]);
        assert("startForcingPosition"@[1] != "setProjectileGravity"@[1]);
        assert("startForcingPosition"@[12] != "startForcingThrottle"@[12]);
        assert("startForcingPosition"@[5] != "startScalingBarriers"@[5]);
        assert("addToScore"@.len() != 20 && "addToTeamScore"@.len() != 20 && "charAt"@.len() != 20 && "chaseAtRate"@.len() != 20 && "chaseOverTime"@.len() != 20 && "createDummyBot"@.len() != 20 && "createEffect"@.len() != 20 && "createHudText"@.len() != 20 && "createInWorldText"@.len() != 20 && "destroyDummy"@.len() != 20 && "getAmmo"@.len() != 20 && "getMaxAmmo"@.len() != 20 && "getPlayersInSlot"@.len() != 20 && "isObjectiveComplete"@.len() != 20 && "max"@.len() != 20 && "min"@.len() != 20 && "randomInteger"@.len() != 20 && "setAbilityCharge"@.len() != 20 && "setAbilityCooldown"@.len() != 20 && "setAbilityResource"@.len() != 20 && "setAmmo"@.len() != 20 && "setGravity"@.len() != 20 && "setMatchTime"@.len() != 20 && "setMaxAmmo"@.len() != 20 && "setMoveSpeed"@.len() != 20 && "setProjectileSpeed"@.len() != 20 && "setRespawnTime"@.len() != 20 && "setScore"@.len() != 20 && "setStatusEffect"@.len() != 20 && "setTeamScore"@.len() != 20 && "setUltCharge"@.len() != 20 && "setWeapon"@.len() != 20 && "skip"@.len() != 20 && "skipIf"@.len() != 20 && "slice"@.len() != 20 && "startModifyingVoicelinePitch"@.len() != 20 && "startScalingSize"@.len() != 20 && "subtract"@.len() != 20 && "valueInArray"@.len() != 20 && "vector"@.len() != 20 && "wait"@.len() != 20);
    }
    if name == "startForcingSpawn"@ {
        assert("startForcingSpawn"@[0] != "createInWorldText"@[0]);
        assert("addToScore"@.len() != 17 && "addToTeamScore"@.len() != 17 && "charAt"@.len() != 17 && "chaseAtRate"@.len() != 17 && "chaseOverTime"@.len() != 17 && "createDummyBot"@.len() != 17 && "createEffect"@.len() != 17 && "createHudText"@.len() != 17 && "destroyDummy"@.len() != 17 && "getAmmo"@.len() != 17 && "getMaxAmmo"@.len() != 17 && "getObjectivePosition"@.len() != 17 && "getPlayersInSlot"@.len() != 17 && "isObjectiveComplete"@.len() != 17 && "max"@.len() != 17 && "min"@.len() != 17 && "randomInteger"@.len() != 17 && "setAbilityCharge"@.len() != 17 && "setAbilityCooldown"@.len() != 17 && "setAbilityResource"@.len() != 17 && "setAmmo"@.len() != 17 && "setGravity"@.len() != 17 && "setMatchTime"@.len() != 17 && "setMaxAmmo"@.len() != 17 && "setMoveSpeed"@.len() != 17 && "setProjectileGravity"@.len() != 17 && "setProjectileSpeed"@.len() != 17 && "setRespawnTime"@.len() != 17 && "setScore"@.len() != 17 && "setStatusEffect"@.len() != 17 && "setTeamScore"@.len() != 17 && "setUltCharge"@.len() != 17 && "setWeapon"@.len() != 17 && "skip"@.len() != 17 && "skipIf"@.len() != 17 && "slice"@.len() != 17 && "startForcingThrottle"@.len() != 17 && "startModifyingVoicelinePitch"@.len() != 17 && "startScalingBarriers"@.len() != 17 && "startScalingSize"@.len() != 17 && "subtract"@.len() != 17 && "valueInArray"@.len() != 17 && "vector"@.len() != 17 && "wait"@.len() != 17);
    }
    if name == "subtract"@ {
        assert("subtract"@[1] != "setScore"@[1]);
        assert("addToScore"@.len() != 8 && "addToTeamScore"@.len() != 8 && "charAt"@.len() != 8 && "chaseAtRate"@.len() != 8 && "chaseOverTime"@.len() != 8 && "createDummyBot"@.len() != 8 && "createEffect"@.len() != 8 && "createHudText"@.len() != 8 && "createInWorldText"@.len() != 8 && "destroyDummy"@.len() != 8 && "getAmmo"@.len() != 8 && "getMaxAmmo"@.len() != 8 && "getObjectivePosition"@.len() != 8 && "getPlayersInSlot"@.len() != 8 && "isObjectiveComplete"@.len() != 8 && "max"@.len() != 8 && "min"@.len() != 8 && "randomInteger"@.len() != 8 && "setAbilityCharge"@.len() != 8 && "setAbilityCooldown"@.len() != 8 && "setAbilityResource"@.len() != 8 && "setAmmo"@.len() != 8 && "setGravity"@.len() != 8 && "setMatchTime"@.len() != 8 && "setMaxAmmo"@.len() != 8 && "setMoveSpeed"@.len() != 8 && "setProjectileGravity"@.len() != 8 && "setProjectileSpeed"@.len() != 8 && "setRespawnTime"@.len() != 8 && "setStatusEffect"@.len() != 8 && "setTeamScore"@.len() != 8 && "setUltCharge"@.len() != 8 && "setWeapon"@.len() != 8 && "skip"@.len() != 8 && "skipIf"@.len() != 8 && "slice"@.len() != 8 && "startForcingThrottle"@.len() != 8 && "startModifyingVoicelinePitch"@.len() != 8 && "startScalingBarriers"@.len() != 8 && "startScalingSize"@.len() != 8 && "valueInArray"@.len() != 8 && "vector"@.len() != 8 && "wait"@.len() != 8);
    }
    if name == "teleport"@ {
        assert("teleport"@[0] != "setScore"@[0]);
        assert("teleport"@[0] != "subtract"@[0]);
        assert("addToScore"@.len() != 8 && "addToTeamScore"@.len() != 8 && "charAt"@.len() != 8 && "chaseAtRate"@.len() != 8 && "chaseOverTime"@.len() != 8 && "createDummyBot"@.len() != 8 && "createEffect"@.len() != 8 && "createHudText"@.len() != 8 && "createInWorldText"@.len() != 8 && "destroyDummy"@.len() != 8 && "getAmmo"@.len() != 8 && "getMaxAmmo"@.len() != 8 && "getObjectivePosition"@.len() != 8 && "getPlayersInSlot"@.len() != 8 && "isObjectiveComplete"@.len() != 8 && "max"@.len() != 8 && "min"@.len() != 8 && "randomInteger"@.len() != 8 && "setAbilityCharge"@.len() != 8 && "setAbilityCooldown"@.len() != 8 && "setAbilityResource"@.len() != 8 && "setAmmo"@.len() != 8 && "setGravity"@.len() != 8 && "setMatchTime"@.len() != 8 && "setMaxAmmo"@.len() != 8 && "setMoveSpeed"@.len() != 8 && "setProjectileGravity"@.len() != 8 && "setProjectileSpeed"@.len() != 8 && "setRespawnTime"@.len() != 8 && "setStatusEffect"@.len() != 8 && "setTeamScore"@.len() != 8 && "setUltCharge"@.len() != 8 && "setWeapon"@.len() != 8 && "skip"@.len() != 8 && "skipIf"@.len() != 8 && "slice"@.len() != 8 && "startForcingThrottle"@.len() != 8 && "startModifyingVoicelinePitch"@.len() != 8 && "startScalingBarriers"@.len() != 8 && "startScalingSize"@.len() != 8 && "valueInArray"@.len() != 8 && "vector"@.len() != 8 && "wait"@.len() != 8);
    }
}

} // verus!
