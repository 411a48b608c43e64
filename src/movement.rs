//! Legality of inventory movements and of their status transitions.
use vstd::prelude::*;
use crate::text::{blank, is_blank, normalize, normalized, same_text};

verus! {

/// A proposed movement, with the raw text of its enumerated fields.
#[derive(Debug)]
pub struct MovementValidationInput {
    pub movement_type: String,
    pub status: String,
    pub motive: Option<String>,
    pub requested_by_role: String,
    pub approver_role: Option<String>,
    pub has_work_order: Option<bool>,
    pub current_status: Option<String>,
    pub new_status: Option<String>,
}

/// An accepted movement: its normalised type and status, and advisories.
#[derive(Debug)]
pub struct MovementValidationResult {
    pub valid: bool,
    pub movement_type: String,
    pub status: String,
    pub warnings: Vec<String>,
}

pub open spec fn is_movement_type(t: Seq<char>) -> bool {
    t == "INITIAL"@ || t == "IN"@ || t == "OUT_OT"@ || t == "TRANSFER"@ || t == "ADJUST"@
        || t == "SCRAP"@
}

pub open spec fn is_status(s: Seq<char>) -> bool {
    s == "PENDING"@ || s == "APPROVED"@ || s == "REJECTED"@
}

pub open spec fn is_requester_role(r: Seq<char>) -> bool {
    r == "BODEGUERO"@ || r == "SUPERVISOR"@ || r == "ADMIN"@ || r == "SUPERADMIN"@
}

pub open spec fn is_approver_role(r: Seq<char>) -> bool {
    r == "SUPERVISOR"@ || r == "ADMIN"@ || r == "SUPERADMIN"@
}

/// Adjustments and scrap need a motive and start pending.
pub open spec fn needs_motive(t: Seq<char>) -> bool {
    t == "ADJUST"@ || t == "SCRAP"@
}

/// Whether the input asks for a status transition.
pub open spec fn asks_transition(input: MovementValidationInput) -> bool {
    input.current_status is Some && input.new_status is Some
}

/// The first rule that `input` breaks, as its message; `None` when it breaks none.
pub open spec fn movement_error(input: MovementValidationInput) -> Option<Seq<char>> {
    let t = normalized(input.movement_type@);
    let s = normalized(input.status@);
    let role = normalized(input.requested_by_role@);
    if !is_movement_type(t) {
        Some("Invalid movement_type"@)
    } else if !is_status(s) {
        Some("Invalid status"@)
    } else if !is_requester_role(role) {
        Some("Invalid requested_by_role"@)
    } else if needs_motive(t) && is_blank(input.motive) {
        Some("Motive is required for ADJUST and SCRAP"@)
    } else if needs_motive(t) && s != "PENDING"@ {
        Some("ADJUST and SCRAP must start as PENDING"@)
    } else if t == "OUT_OT"@ && input.has_work_order != Some(true) {
        Some("OUT_OT requires an associated work order"@)
    } else if asks_transition(input) {
        let cur = normalized(input.current_status->Some_0@);
        let new = normalized(input.new_status->Some_0@);
        if cur != "PENDING"@ {
            Some("Only PENDING movements can change status"@)
        } else if !(new == "APPROVED"@ || new == "REJECTED"@) {
            Some("New status must be APPROVED or REJECTED"@)
        } else if input.approver_role is None {
            Some("Approver role is required for PENDING transitions"@)
        } else if !is_approver_role(normalized(input.approver_role->Some_0@)) {
            Some("Only Supervisor/Admin/SuperAdmin can approve or reject pending movements"@)
        } else {
            None
        }
    } else {
        None
    }
}

/// Whether an accepted movement carries the advisory on a supervisor approving scrap.
pub open spec fn warns_supervisor_scrap(input: MovementValidationInput) -> bool {
    asks_transition(input) && normalized(input.movement_type@) == "SCRAP"@
        && normalized(input.approver_role->Some_0@) == "SUPERVISOR"@
}

/// What `validate_movement` returns on `input`.
pub open spec fn movement_post(
    input: MovementValidationInput,
    r: Result<MovementValidationResult, String>,
) -> bool {
    match movement_error(input) {
        Some(msg) => r is Err && r->Err_0@ == msg,
        None => r is Ok && {
            let res = r->Ok_0;
            &&& res.valid
            &&& res.movement_type@ == normalized(input.movement_type@)
            &&& res.status@ == normalized(input.status@)
            &&& if warns_supervisor_scrap(input) {
                res.warnings@.len() == 1
                    && res.warnings@[0]@ == "Supervisor aprobando SCRAP: revisar politica interna de montos"@
            } else {
                res.warnings@.len() == 0
            }
        }
    }
}

/// Checks a proposed movement against the rules in order and reports the first
/// one it breaks; an accepted movement comes back normalised.
pub fn validate_movement(input: MovementValidationInput) -> (r: Result<
    MovementValidationResult,
    String,
>)
    ensures
        movement_post(input, r),
{
    let movement_type = normalize(input.movement_type.as_str());
    let status = normalize(input.status.as_str());
    let requested_by_role = normalize(input.requested_by_role.as_str());
    let t = movement_type.as_str();
    let s = status.as_str();
    let role = requested_by_role.as_str();

    if !(same_text(t, "INITIAL") || same_text(t, "IN") || same_text(t, "OUT_OT") || same_text(
        t,
        "TRANSFER",
    ) || same_text(t, "ADJUST") || same_text(t, "SCRAP")) {
        return Err("Invalid movement_type".to_string());
    }
    if !(same_text(s, "PENDING") || same_text(s, "APPROVED") || same_text(s, "REJECTED")) {
        return Err("Invalid status".to_string());
    }
    if !(same_text(role, "BODEGUERO") || same_text(role, "SUPERVISOR") || same_text(role, "ADMIN")
        || same_text(role, "SUPERADMIN")) {
        return Err("Invalid requested_by_role".to_string());
    }
    let needs_motive = same_text(t, "ADJUST") || same_text(t, "SCRAP");
    if needs_motive && blank(&input.motive) {
        return Err("Motive is required for ADJUST and SCRAP".to_string());
    }
    if needs_motive && !same_text(s, "PENDING") {
        return Err("ADJUST and SCRAP must start as PENDING".to_string());
    }
    let has_work_order = match input.has_work_order {
        Some(b) => b,
        None => false,
    };
    if same_text(t, "OUT_OT") && !has_work_order {
        return Err("OUT_OT requires an associated work order".to_string());
    }

    let mut warnings: Vec<String> = Vec::new();
    if let (Some(current_status), Some(new_status)) = (&input.current_status, &input.new_status) {
        let current_status = normalize(current_status.as_str());
        let new_status = normalize(new_status.as_str());
        if !same_text(current_status.as_str(), "PENDING") {
            return Err("Only PENDING movements can change status".to_string());
        }
        if !(same_text(new_status.as_str(), "APPROVED") || same_text(
            new_status.as_str(),
            "REJECTED",
        )) {
            return Err("New status must be APPROVED or REJECTED".to_string());
        }
        let approver_role = match &input.approver_role {
            Some(a) => normalize(a.as_str()),
            None => {
                return Err("Approver role is required for PENDING transitions".to_string());
            },
        };
        let a = approver_role.as_str();
        if !(same_text(a, "SUPERVISOR") || same_text(a, "ADMIN") || same_text(a, "SUPERADMIN")) {
            return Err(
                "Only Supervisor/Admin/SuperAdmin can approve or reject pending movements".to_string(),
            );
        }
        if same_text(a, "SUPERVISOR") && same_text(t, "SCRAP") {
            warnings.push("Supervisor aprobando SCRAP: revisar politica interna de montos".to_string());
        }
    }
    Ok(MovementValidationResult { valid: true, movement_type, status, warnings })
}

/// Validating the same movement twice gives the same result: the same error,
/// or the same normalised type, status and warnings.
pub proof fn lemma_validation_deterministic(
    input: MovementValidationInput,
    r1: Result<MovementValidationResult, String>,
    r2: Result<MovementValidationResult, String>,
)
    requires
        movement_post(input, r1),
        movement_post(input, r2),
    ensures
        r1 is Ok <==> r2 is Ok,
        r1 is Err ==> r1->Err_0@ == r2->Err_0@,
        r1 is Ok ==> {
            let a = r1->Ok_0;
            let b = r2->Ok_0;
            &&& a.valid == b.valid
            &&& a.movement_type@ == b.movement_type@
            &&& a.status@ == b.status@
            &&& a.warnings@.len() == b.warnings@.len()
            &&& forall|k: int| 0 <= k < a.warnings@.len() ==> #[trigger] a.warnings@[k]@ == b.warnings@[k]@
        },
{
}

/// An adjustment that is pending and has no motive is always refused.
pub proof fn lemma_adjust_without_motive_refused(
    input: MovementValidationInput,
    r: Result<MovementValidationResult, String>,
)
    requires
        movement_post(input, r),
        normalized(input.movement_type@) == "ADJUST"@,
        normalized(input.status@) == "PENDING"@,
        input.motive is None,
    ensures
        r is Err,
{
    reveal_strlit("ADJUST");
    reveal_strlit("PENDING");
    reveal_strlit("INITIAL");
    reveal_strlit("IN");
    reveal_strlit("OUT_OT");
    reveal_strlit("TRANSFER");
    reveal_strlit("SCRAP");
    reveal_strlit("APPROVED");
    reveal_strlit("REJECTED");
}

/// A work-order issue without a work order is always refused, whatever the
/// other fields hold.
pub proof fn lemma_work_order_issue_needs_order(
    input: MovementValidationInput,
    r: Result<MovementValidationResult, String>,
)
    requires
        movement_post(input, r),
        normalized(input.movement_type@) == "OUT_OT"@,
        input.has_work_order != Some(true),
    ensures
        r is Err,
{
    reveal_strlit("OUT_OT");
    reveal_strlit("ADJUST");
    reveal_strlit("SCRAP");
}

} // verus!
