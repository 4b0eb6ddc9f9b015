//! The unit snapshot record handed over by the service manager, and the
//! small predicates the views use on it.  The record is an immutable value,
//! wholly replaced on each refresh; its identity is the unit name.

use vstd::prelude::*;

use crate::text::str_eq;

verus! {

/// One managed unit, as the snapshot lists it.
pub struct UnitInfo {
    pub name: String,
    pub description: String,
    pub load_state: String,
    pub active_state: String,
    pub sub_state: String,
}

/// The mathematical value of a [`UnitInfo`]: each field as a character
/// sequence.
pub ghost struct UnitInfoV {
    pub name: Seq<char>,
    pub description: Seq<char>,
    pub load_state: Seq<char>,
    pub active_state: Seq<char>,
    pub sub_state: Seq<char>,
}

impl View for UnitInfo {
    type V = UnitInfoV;

    open spec fn view(&self) -> UnitInfoV {
        UnitInfoV {
            name: self.name@,
            description: self.description@,
            load_state: self.load_state@,
            active_state: self.active_state@,
            sub_state: self.sub_state@,
        }
    }
}

/// The views of a sequence of unit records.
pub open spec fn units_view(s: Seq<UnitInfo>) -> Seq<UnitInfoV> {
    s.map_values(|u: UnitInfo| u@)
}

impl UnitInfo {
    /// A field-by-field copy with the same view.
    pub fn duplicate(&self) -> (r: UnitInfo)
        ensures
            r@ == self@,
    {
        UnitInfo {
            name: self.name.clone(),
            description: self.description.clone(),
            load_state: self.load_state.clone(),
            active_state: self.active_state.clone(),
            sub_state: self.sub_state.clone(),
        }
    }

    /// Whether the unit is currently active.
    pub fn is_active(&self) -> (r: bool)
        ensures
            r == (self@.active_state == "active"@),
    {
        str_eq(self.active_state.as_str(), "active")
    }

    /// Whether the unit has failed, either at run time or at load time.
    pub fn is_failed(&self) -> (r: bool)
        ensures
            r == (self@.active_state == "failed"@ || self@.load_state == "error"@),
    {
        str_eq(self.active_state.as_str(), "failed") || str_eq(self.load_state.as_str(), "error")
    }

    /// The one-character indicator for the unit's activation state.
    #[verifier::rlimit(30)]
    pub fn state_indicator(&self) -> (r: &'static str)
        ensures
            self@.active_state == "active"@ ==> r@ == "\u{25cf}"@,
            self@.active_state == "inactive"@ ==> r@ == "\u{25cb}"@,
            self@.active_state == "failed"@ ==> r@ == "\u{2717}"@,
            self@.active_state == "activating"@ ==> r@ == "\u{25d0}"@,
            self@.active_state == "deactivating"@ ==> r@ == "\u{25d1}"@,
            self@.active_state != "active"@ && self@.active_state != "inactive"@
                && self@.active_state != "failed"@ && self@.active_state != "activating"@
                && self@.active_state != "deactivating"@ ==> r@ == "?"@,
    {
        proof {
            reveal_strlit("active");
            reveal_strlit("inactive");
            reveal_strlit("failed");
            reveal_strlit("activating");
            reveal_strlit("deactivating");
            assert("active"@.len() == 6);
            assert("inactive"@.len() == 8);
            assert("failed"@.len() == 6);
            assert("activating"@.len() == 10);
            assert("deactivating"@.len() == 12);
            assert("active"@[0] == 'a' && "failed"@[0] == 'f');
            assert("active"@ != "failed"@);
        }
        let s = self.active_state.as_str();
        if str_eq(s, "active") {
            "\u{25cf}"
        } else if str_eq(s, "inactive") {
            "\u{25cb}"
        } else if str_eq(s, "failed") {
            "\u{2717}"
        } else if str_eq(s, "activating") {
            "\u{25d0}"
        } else if str_eq(s, "deactivating") {
            "\u{25d1}"
        } else {
            "?"
        }
    }
}

} // verus!
