//! The capability gates: stages that a route stacks in a fixed order, each
//! passing the request on (perhaps with a principal attached) or stopping it.
use vstd::prelude::*;
use crate::claims::{Claims, ClaimsModel};
use crate::error::AppError;

verus! {

/// One stage of a route's gate.
#[derive(Debug, Clone, Copy, PartialEq, Eq)]
pub enum Stage {
    /// No check.
    Public,
    /// Attaches the principal when the token verifies; never stops the request.
    OptionalAuthenticated,
    /// Stops a request whose token does not verify.
    Authenticated,
    /// Needs an attached principal whose role is `admin`.
    Administrator,
}

/// Why a gate stopped a request.
#[derive(Debug, Clone, Copy, PartialEq, Eq, Structural)]
pub enum Rejection {
    /// 401: no verified principal.
    Unauthorized,
    /// 403: the principal is known but lacks the role.
    Forbidden,
}

impl Rejection {
    pub fn status_code(&self) -> (r: u16)
        ensures
            *self == Rejection::Unauthorized ==> r == 401,
            *self == Rejection::Forbidden ==> r == 403,
    {
        match self {
            Rejection::Unauthorized => 401,
            Rejection::Forbidden => 403,
        }
    }
}

pub open spec fn admin_role() -> Seq<char> {
    seq!['a', 'd', 'm', 'i', 'n']
}

/// Whether a role is `admin`.
pub fn is_admin(role: &str) -> (r: bool)
    ensures
        r == (role@ == admin_role()),
{
    if role.unicode_len() != 5 {
        return false;
    }
    let ok = role.get_char(0) == 'a' && role.get_char(1) == 'd' && role.get_char(2) == 'm'
        && role.get_char(3) == 'i' && role.get_char(4) == 'n';
    proof {
        if role@ == admin_role() {
            assert(role@[0] == 'a' && role@[1] == 'd' && role@[2] == 'm' && role@[3] == 'i'
                && role@[4] == 'n');
        }
        if ok {
            assert(role@ =~= admin_role());
        }
    }
    ok
}

pub open spec fn opt_model(c: Option<Claims>) -> Option<ClaimsModel> {
    match c {
        Some(c) => Some(c@),
        None => None,
    }
}

/// What a stack of stages does with a request whose token resolved to
/// `resolved`; `Ok(attached)` says whether a principal reaches the handler.
pub open spec fn stages_outcome(
    stages: Seq<Stage>,
    resolved: Option<ClaimsModel>,
    attached: bool,
) -> Result<bool, Rejection>
    decreases stages.len(),
{
    if stages.len() == 0 {
        Ok(attached)
    } else {
        let rest = stages.drop_first();
        match stages[0] {
            Stage::Public => stages_outcome(rest, resolved, attached),
            Stage::OptionalAuthenticated => stages_outcome(
                rest,
                resolved,
                attached || resolved is Some,
            ),
            Stage::Authenticated => if resolved is None {
                Err(Rejection::Unauthorized)
            } else {
                stages_outcome(rest, resolved, true)
            },
            Stage::Administrator => if !attached || resolved is None {
                Err(Rejection::Unauthorized)
            } else if resolved->Some_0.role != admin_role() {
                Err(Rejection::Forbidden)
            } else {
                stages_outcome(rest, resolved, attached)
            },
        }
    }
}

/// Runs the stages in order; the principal, if one is attached, is the
/// resolved one.
pub fn run_stages(stages: &[Stage], resolved: Option<Claims>) -> (r: Result<Option<Claims>, Rejection>)
    ensures
        stages_outcome(stages@, opt_model(resolved), false) == match r {
            Ok(p) => Ok(p is Some),
            Err(e) => Err(e),
        },
        r matches Ok(Some(c)) ==> resolved == Some(c),
{
    let mut attached = false;
    let mut i: usize = 0;
    assert(stages@.skip(0) =~= stages@);
    while i < stages.len()
        invariant
            i <= stages.len(),
            attached ==> resolved is Some,
            stages_outcome(stages@, opt_model(resolved), false) == stages_outcome(
                stages@.skip(i as int),
                opt_model(resolved),
                attached,
            ),
        decreases stages.len() - i,
    {
        let ghost rest = stages@.skip(i as int);
        assert(rest[0] == stages@[i as int]);
        assert(rest.drop_first() =~= stages@.skip(i + 1));
        match stages[i] {
            Stage::Public => {},
            Stage::OptionalAuthenticated => {
                if resolved.is_some() {
                    attached = true;
                }
            },
            Stage::Authenticated => {
                if resolved.is_none() {
                    return Err(Rejection::Unauthorized);
                }
                attached = true;
            },
            Stage::Administrator => {
                match &resolved {
                    Some(c) => {
                        if !attached {
                            return Err(Rejection::Unauthorized);
                        }
                        if !is_admin(c.role.as_str()) {
                            return Err(Rejection::Forbidden);
                        }
                    },
                    None => {
                        return Err(Rejection::Unauthorized);
                    },
                }
            },
        }
        i = i + 1;
    }
    assert(stages@.skip(i as int) =~= Seq::<Stage>::empty());
    if attached {
        Ok(resolved)
    } else {
        Ok(None)
    }
}

pub open spec fn needs_principal(s: Stage) -> bool {
    s == Stage::Authenticated || s == Stage::Administrator
}

/// A request without a verified token passes a stack of `Public` and
/// `OptionalAuthenticated` stages with no principal attached, and is
/// stopped as unauthorized by any stack with an `Authenticated` or
/// `Administrator` stage.
pub proof fn lemma_gate_without_principal(stages: Seq<Stage>)
    ensures
        (exists|i: int| 0 <= i < stages.len() && needs_principal(#[trigger] stages[i]))
            ==> stages_outcome(stages, None, false) == Err::<bool, Rejection>(
            Rejection::Unauthorized,
        ),
        (forall|i: int| 0 <= i < stages.len() ==> !needs_principal(#[trigger] stages[i]))
            ==> stages_outcome(stages, None, false) == Ok::<bool, Rejection>(false),
    decreases stages.len(),
{
    if stages.len() > 0 {
        let rest = stages.drop_first();
        lemma_gate_without_principal(rest);
        if exists|i: int| 0 <= i < stages.len() && needs_principal(#[trigger] stages[i]) {
            let i = choose|i: int| 0 <= i < stages.len() && needs_principal(#[trigger] stages[i]);
            if i > 0 && !needs_principal(stages[0]) {
                assert(rest[i - 1] == stages[i]);
            }
        }
        if forall|i: int| 0 <= i < stages.len() ==> !needs_principal(#[trigger] stages[i]) {
            assert forall|i: int| 0 <= i < rest.len() implies !needs_principal(#[trigger] rest[i]) by {
                assert(rest[i] == stages[i + 1]);
            }
            assert(!needs_principal(stages[0]));
        }
    }
}

/// The stored state of a user that the gates and the exam read and write.
#[derive(Debug, Clone, PartialEq, Eq)]
pub struct UserStatus {
    pub is_verified: bool,
    pub role: String,
}

/// A principal that passed the verified-contributor gate.
#[derive(Debug, Clone, Copy, PartialEq, Eq)]
pub struct VerifiedUser {
    pub id: i64,
}

pub open spec fn contributor_gate(user_id: i64, stored: Option<UserStatus>) -> Result<
    VerifiedUser,
    AppError,
> {
    match stored {
        None => Err(AppError::NotFound(arbitrary())),
        Some(s) => if s.is_verified || s.role@ == admin_role() {
            Ok(VerifiedUser { id: user_id })
        } else {
            Err(AppError::AuthError(arbitrary()))
        },
    }
}

pub open spec fn same_kind(a: Result<VerifiedUser, AppError>, b: Result<VerifiedUser, AppError>) -> bool {
    match (a, b) {
        (Ok(x), Ok(y)) => x == y,
        (Err(AppError::NotFound(_)), Err(AppError::NotFound(_))) => true,
        (Err(AppError::AuthError(_)), Err(AppError::AuthError(_))) => true,
        _ => false,
    }
}

/// The verified-contributor decision, made on the user's stored state as it
/// is now (read again for each request), not on what the token said.
pub fn verified_contributor(user_id: i64, stored: Option<&UserStatus>) -> (r: Result<
    VerifiedUser,
    AppError,
>)
    ensures
        r matches Err(AppError::NotFound(m)) ==> m@ == "User not found"@,
        r matches Err(AppError::AuthError(m)) ==> m@
            == "You must be a verified contributor to perform this action."@,
        same_kind(r, contributor_gate(user_id, match stored {
            Some(s) => Some(*s),
            None => None,
        })),
{
    match stored {
        None => Err(AppError::NotFound(String::from_str("User not found"))),
        Some(s) => {
            if s.is_verified || is_admin(s.role.as_str()) {
                Ok(VerifiedUser { id: user_id })
            } else {
                Err(
                    AppError::AuthError(
                        String::from_str(
                            "You must be a verified contributor to perform this action.",
                        ),
                    ),
                )
            }
        },
    }
}

/// A user verified in storage passes the verified-contributor gate, whatever
/// their token said when it was issued.
pub proof fn lemma_contributor_recheck(user_id: i64, stored: UserStatus)
    requires
        stored.is_verified,
    ensures
        contributor_gate(user_id, Some(stored)) == Ok::<VerifiedUser, AppError>(
            VerifiedUser { id: user_id },
        ),
{
}

} // verus!
