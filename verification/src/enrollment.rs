//! Pairing of new devices: an agent shows a one-time code, and waits on its
//! socket until an administrator who knows the code decides.

use std::collections::HashMap;
use vstd::prelude::*;

use crate::api::{
    refusal_of, refuse, ApiError, CONFLICT, GONE, NOT_FOUND, UNPROCESSABLE_ENTITY,
};
use crate::ids::{id_text, uuid_text};
use crate::messages::{error_message, tells_error};
use crate::protocol::ControlMessage;
use crate::text::same_text;
use crate::token::{
    constant_time_eq, hash_token, is_enroll_code, normal_code, normalize_code, token_hash,
    valid_code, ENROLL_TTL_MINUTES,
};

verus! {

broadcast use vstd::std_specs::hash::group_hash_axioms;

/// An agent that waits: the hash of its code, and when the code expires, in
/// nanoseconds of Unix time.
pub struct PendingEnrollment {
    pub code_hash: String,
    pub expires_at: i128,
}

/// What is known of an agent that waits.
#[verifier::ext_equal]
pub struct PendingView {
    pub code_hash: Seq<char>,
    pub expires_at: i128,
}

impl View for PendingEnrollment {
    type V = PendingView;

    open spec fn view(&self) -> PendingView {
        PendingView { code_hash: self.code_hash@, expires_at: self.expires_at }
    }
}

/// The agents that wait for a decision, by the id of their enrollment.
pub struct Enrollments {
    waiting: HashMap<u128, PendingEnrollment>,
}

impl View for Enrollments {
    type V = Map<u128, PendingView>;

    closed spec fn view(&self) -> Map<u128, PendingView> {
        self.waiting@.map_values(|p: PendingEnrollment| p@)
    }
}

/// What an administrator, or time, decided.
#[derive(Debug, PartialEq, Eq)]
pub enum EnrollmentDecision {
    Approved { token: String, device_id: u128 },
    Denied,
    Expired,
}

/// What becomes of a request for enrollment.
#[derive(Debug, PartialEq, Eq)]
pub enum EnrollStart {
    /// The code is none; the agent is told.
    Invalid(ControlMessage),
    /// Another agent waits under this code; the socket is closed.
    Duplicate,
    /// The agent waits under the hash of its code until the code expires.
    Waiting { code_hash: String, expires_at: i128 },
}

/// The refusal of a code.
pub open spec fn code_refusal(m: ControlMessage) -> bool {
    tells_error(m, "invalid_enroll_code"@, "Enrollment code must be 8 characters"@)
}

/// Checks the code of a request for enrollment. The result is the hash that
/// the code is stored under.
pub fn check_code(code: &str) -> (r: Result<String, ControlMessage>)
    ensures
        match r {
            Ok(hash) => valid_code(normal_code(code@)) && hash@ == token_hash(normal_code(code@)),
            Err(m) => !valid_code(normal_code(code@)) && code_refusal(m),
        },
{
    let code = normalize_code(code);
    if !is_enroll_code(code.as_str()) {
        return Err(
            error_message("invalid_enroll_code", "Enrollment code must be 8 characters"),
        );
    }
    Ok(hash_token(code.as_str()))
}

/// The time from now until a code expires, in nanoseconds.
pub fn time_left(expires_at: i128, now: i128) -> (r: u128)
    ensures
        r == if expires_at > now {
            expires_at - now
        } else {
            0
        },
        r == left_of(expires_at as int, now as int),
{
    if expires_at <= now {
        return 0;
    }
    if now >= 0 {
        (expires_at - now) as u128
    } else if expires_at >= 0 {
        expires_at as u128 + magnitude(now)
    } else {
        magnitude(now) - magnitude(expires_at)
    }
}

fn magnitude(n: i128) -> (r: u128)
    requires
        n < 0,
    ensures
        r == -n,
{
    (-(n + 1)) as u128 + 1
}

/// What waits after a request for enrollment.
pub open spec fn after_start(
    v: Map<u128, PendingView>,
    id: u128,
    code: Seq<char>,
    pending: i64,
    now: i128,
) -> Map<u128, PendingView> {
    if valid_code(normal_code(code)) && pending <= 0 {
        v.insert(
            id,
            PendingView {
                code_hash: token_hash(normal_code(code)),
                expires_at: (now + ENROLL_TTL_MINUTES * 60_000_000_000) as i128,
            },
        )
    } else {
        v
    }
}

/// The code that an administrator enters counts if it is the one that the
/// enrollment is stored under.
pub open spec fn approval_refusal(
    v: Map<u128, PendingView>,
    id: u128,
    code: Seq<char>,
    stored: Option<(Seq<char>, i128)>,
    now: i128,
) -> Option<(u16, Seq<char>)> {
    if !valid_code(normal_code(code)) {
        Some(
            (
                UNPROCESSABLE_ENTITY,
                "Enrollment code must be 8 characters from the pairing alphabet"@,
            ),
        )
    } else {
        match stored {
            None => Some((NOT_FOUND, "Enrollment not found or already resolved"@)),
            Some((hash, expires_at)) => if expires_at <= now {
                Some((GONE, "Enrollment code expired"@))
            } else if hash != token_hash(normal_code(code)) {
                Some((UNPROCESSABLE_ENTITY, "Enrollment code does not match"@))
            } else if !v.contains_key(id) {
                Some((CONFLICT, "Enrollment connection is no longer online"@))
            } else if v[id].code_hash != hash || v[id].expires_at <= now {
                Some((GONE, "Enrollment expired"@))
            } else {
                None
            },
        }
    }
}

/// Whether an attempt to approve reaches the agent that waits.
pub open spec fn approval_reaches(
    code: Seq<char>,
    stored: Option<(Seq<char>, i128)>,
    now: i128,
) -> bool {
    valid_code(normal_code(code)) && (stored matches Some((hash, expires_at)) && expires_at > now
        && hash == token_hash(normal_code(code)))
}

/// What waits after an attempt to approve: an agent that was reached no longer
/// does.
pub open spec fn after_approval(
    v: Map<u128, PendingView>,
    id: u128,
    code: Seq<char>,
    stored: Option<(Seq<char>, i128)>,
    now: i128,
) -> Map<u128, PendingView> {
    if approval_reaches(code, stored, now) {
        v.remove(id)
    } else {
        v
    }
}

impl Enrollments {
    pub fn new() -> (r: Self)
        ensures
            r@ == Map::<u128, PendingView>::empty(),
    {
        let r = Enrollments { waiting: HashMap::new() };
        assert(r@ =~= Map::<u128, PendingView>::empty());
        r
    }

    /// Whether an agent waits under an id.
    pub fn waits(&self, id: u128) -> (r: bool)
        ensures
            r == self@.contains_key(id),
    {
        self.waiting.contains_key(&id)
    }

    /// Takes a request for enrollment. `pending` is the number of enrollments
    /// that wait under the same code.
    pub fn start(&mut self, id: u128, code: &str, pending: i64, now: i128) -> (r: EnrollStart)
        requires
            now + ENROLL_TTL_MINUTES * 60_000_000_000 <= i128::MAX,
        ensures
            final(self)@ == after_start(old(self)@, id, code@, pending, now),
            if !valid_code(normal_code(code@)) {
                r matches EnrollStart::Invalid(m) && code_refusal(m)
            } else if pending > 0 {
                r is Duplicate
            } else {
                r matches EnrollStart::Waiting { code_hash, expires_at } && code_hash@
                    == token_hash(normal_code(code@)) && expires_at == now + ENROLL_TTL_MINUTES
                    * 60_000_000_000
            },
    {
        let code_hash = match check_code(code) {
            Ok(hash) => hash,
            Err(m) => {
                return EnrollStart::Invalid(m);
            },
        };
        if pending > 0 {
            return EnrollStart::Duplicate;
        }
        let expires_at: i128 = now + 900_000_000_000;
        let ghost before = self@;
        self.waiting.insert(id, PendingEnrollment { code_hash: code_hash.clone(), expires_at });
        assert(self@ =~= after_start(before, id, code@, pending, now));
        EnrollStart::Waiting { code_hash, expires_at }
    }

    /// An agent no longer waits: its socket closed, its code expired, or it
    /// was denied. Says whether it waited.
    pub fn forget(&mut self, id: u128) -> (r: bool)
        ensures
            r == old(self)@.contains_key(id),
            final(self)@ == old(self)@.remove(id),
            final(self)@ == forgotten(old(self)@, id),
    {
        let ghost before = self@;
        let r = self.waiting.remove(&id).is_some();
        assert(self@ =~= before.remove(id));
        r
    }

    /// Decides on an approval, by the code that was entered and the hash and
    /// the expiry that are stored for the pending enrollment.
    pub fn approve(
        &mut self,
        id: u128,
        code: &str,
        stored: Option<(&str, i128)>,
        now: i128,
    ) -> (r: Result<(), ApiError>)
        ensures
            refusal_of(r) == approval_refusal(
                old(self)@,
                id,
                code@,
                match stored {
                    Some((hash, expires_at)) => Some((hash@, expires_at)),
                    None => None,
                },
                now,
            ),
            final(self)@ == after_approval(
                old(self)@,
                id,
                code@,
                match stored {
                    Some((hash, expires_at)) => Some((hash@, expires_at)),
                    None => None,
                },
                now,
            ),
    {
        let code = normalize_code(code);
        if !is_enroll_code(code.as_str()) {
            return Err(
                refuse(
                    UNPROCESSABLE_ENTITY,
                    "Enrollment code must be 8 characters from the pairing alphabet",
                ),
            );
        }
        let (hash, expires_at) = match stored {
            None => {
                return Err(refuse(NOT_FOUND, "Enrollment not found or already resolved"));
            },
            Some((hash, expires_at)) => (hash, expires_at),
        };
        if expires_at <= now {
            return Err(refuse(GONE, "Enrollment code expired"));
        }
        let entered = hash_token(code.as_str());
        if !constant_time_eq(hash, entered.as_str()) {
            return Err(refuse(UNPROCESSABLE_ENTITY, "Enrollment code does not match"));
        }
        let ghost before = self@;
        let entry = self.waiting.remove(&id);
        assert(self@ =~= before.remove(id));
        match entry {
            None => {
                assert(self@ =~= before);
                Err(refuse(CONFLICT, "Enrollment connection is no longer online"))
            },
            Some(entry) => {
                assert(before[id] == entry@);
                if !same_text(entry.code_hash.as_str(), hash) || entry.expires_at <= now {
                    return Err(refuse(GONE, "Enrollment expired"));
                }
                Ok(())
            },
        }
    }
}

/// Whether a pending enrollment is to be marked as expired, when it is approved
/// by a code: the code is well formed and the enrollment is past its expiry.
pub fn marks_expired(code: &str, stored: Option<(&str, i128)>, now: i128) -> (r: bool)
    ensures
        r == (valid_code(normal_code(code@)) && (stored matches Some((_, expires_at))
            && expires_at <= now)),
        r == found_expired(
            code@,
            match stored {
                Some((hash, expires_at)) => Some((hash@, expires_at)),
                None => None,
            },
            now,
        ),
{
    let code = normalize_code(code);
    match stored {
        Some((_, expires_at)) => is_enroll_code(code.as_str()) && expires_at <= now,
        None => false,
    }
}

/// What an agent is told of a decision.
pub fn decision_message(decision: EnrollmentDecision) -> (r: ControlMessage)
    ensures
        match decision {
            EnrollmentDecision::Approved { token, device_id } =>
                r matches ControlMessage::Enrolled { token: t, device_id: d } && t == token && d@
                == uuid_text(device_id),
            EnrollmentDecision::Denied => tells_error(
                r,
                "enroll_denied"@,
                "Enrollment rejected by administrator"@,
            ),
            EnrollmentDecision::Expired => tells_error(
                r,
                "enroll_expired"@,
                "Enrollment code expired"@,
            ),
        },
{
    match decision {
        EnrollmentDecision::Approved { token, device_id } => ControlMessage::Enrolled {
            token,
            device_id: id_text(device_id),
        },
        EnrollmentDecision::Denied => error_message(
            "enroll_denied",
            "Enrollment rejected by administrator",
        ),
        EnrollmentDecision::Expired => error_message("enroll_expired", "Enrollment code expired"),
    }
}

/// A code can be used once: after an approval, every further one of the same
/// enrollment is refused until an agent waits under it again.
pub proof fn code_is_single_use(
    v: Map<u128, PendingView>,
    id: u128,
    code: Seq<char>,
    stored: Option<(Seq<char>, i128)>,
    now: i128,
    again: Seq<char>,
    stored_again: Option<(Seq<char>, i128)>,
    later: i128,
)
    requires
        approval_refusal(v, id, code, stored, now) is None,
    ensures
        approval_refusal(
            after_approval(v, id, code, stored, now),
            id,
            again,
            stored_again,
            later,
        ) is Some,
{
}

/// An approval goes through while the agent waits, with the code that it
/// showed, before the code expires; and then only.
pub proof fn approval_needs_code(
    id: u128,
    shown: Seq<char>,
    entered: Seq<char>,
    started: i128,
    now: i128,
)
    requires
        valid_code(normal_code(shown)),
        started + ENROLL_TTL_MINUTES * 60_000_000_000 <= i128::MAX,
    ensures
        ({
            let v = after_start(Map::empty(), id, shown, 0, started);
            let stored = Some((v[id].code_hash, v[id].expires_at));
            approval_refusal(v, id, entered, stored, now) is None <==> valid_code(
                normal_code(entered),
            ) && token_hash(normal_code(entered)) == token_hash(normal_code(shown)) && now < started
                + ENROLL_TTL_MINUTES * 60_000_000_000
        }),
{
}

/// A code can be used for fifteen minutes after it was shown: an approval with
/// it goes through until then, and is refused from then on.
pub proof fn code_is_good_for_fifteen_minutes(
    v: Map<u128, PendingView>,
    id: u128,
    code: Seq<char>,
    started: i128,
    now: i128,
)
    requires
        valid_code(normal_code(code)),
        started + 900_000_000_000 <= i128::MAX,
    ensures
        ({
            let w = after_start(v, id, code, 0, started);
            let stored = Some((token_hash(normal_code(code)), (started + 900_000_000_000) as i128));
            &&& w.contains_key(id)
            &&& now < started + 900_000_000_000 ==> approval_refusal(w, id, code, stored, now) is None
            &&& now >= started + 900_000_000_000 ==> approval_refusal(
                w,
                id,
                code,
                stored,
                now,
            ) is Some
        }),
{
}

/// No agent waits under a code that is none, or that another already waits
/// under. An agent that starts or stops waiting concerns no other.
pub proof fn waiting_concerns_one_agent(
    v: Map<u128, PendingView>,
    id: u128,
    other: u128,
    code: Seq<char>,
    pending: i64,
    stored: Option<(Seq<char>, i128)>,
    now: i128,
)
    requires
        other != id,
    ensures
        after_start(v, id, code, pending, now).get(other) == v.get(other),
        after_approval(v, id, code, stored, now).get(other) == v.get(other),
        !valid_code(normal_code(code)) || pending > 0 ==> after_start(v, id, code, pending, now)
            == v,
        valid_code(normal_code(code)) && pending <= 0 ==> after_start(
            v,
            id,
            code,
            pending,
            now,
        ).contains_key(id),
{
}

/// An approval with the wrong code, of no pending enrollment, or of an expired
/// one is refused and leaves the agent waiting; each refusal has its status.
pub proof fn wrong_approval_leaves_agent_waiting(
    v: Map<u128, PendingView>,
    id: u128,
    code: Seq<char>,
    hash: Seq<char>,
    expires_at: i128,
    now: i128,
)
    ensures
        !valid_code(normal_code(code)) ==> after_approval(
            v,
            id,
            code,
            Some((hash, expires_at)),
            now,
        ) == v && (approval_refusal(v, id, code, Some((hash, expires_at)), now) matches Some(
            (status, _),
        ) && status == 422),
        valid_code(normal_code(code)) ==> after_approval(v, id, code, None, now) == v && (
        approval_refusal(v, id, code, None, now) matches Some((status, _)) && status == 404),
        valid_code(normal_code(code)) && expires_at <= now ==> after_approval(
            v,
            id,
            code,
            Some((hash, expires_at)),
            now,
        ) == v && (approval_refusal(v, id, code, Some((hash, expires_at)), now) matches Some(
            (status, _),
        ) && status == 410),
        valid_code(normal_code(code)) && expires_at > now && hash != token_hash(normal_code(code))
            ==> after_approval(v, id, code, Some((hash, expires_at)), now) == v && (
        approval_refusal(v, id, code, Some((hash, expires_at)), now) matches Some((status, _))
            && status == 422),
        valid_code(normal_code(code)) && expires_at > now && hash == token_hash(normal_code(code))
            && !v.contains_key(id) ==> (approval_refusal(
            v,
            id,
            code,
            Some((hash, expires_at)),
            now,
        ) matches Some((status, _)) && status == 409),
{
}

/// The time left until an expiry.
pub open spec fn left_of(expires_at: int, now: int) -> int {
    if expires_at > now {
        expires_at - now
    } else {
        0
    }
}

/// Whether an approval finds that the stored code has expired.
pub open spec fn found_expired(
    code: Seq<char>,
    stored: Option<(Seq<char>, i128)>,
    now: i128,
) -> bool {
    valid_code(normal_code(code)) && (stored matches Some((_, expires_at)) && expires_at <= now)
}

/// The wait ends at the expiry, and at once where that has passed.
pub proof fn wait_ends_at_expiry(expires_at: int, now: int)
    ensures
        expires_at >= now ==> now + left_of(expires_at, now) == expires_at,
        expires_at < now ==> left_of(expires_at, now) == 0,
{
}

/// A stored code is marked expired only where the approval is refused as gone,
/// and is never marked before its time.
pub proof fn expired_code_is_refused(
    v: Map<u128, PendingView>,
    id: u128,
    code: Seq<char>,
    hash: Seq<char>,
    expires_at: i128,
    now: i128,
)
    ensures
        found_expired(code, Some((hash, expires_at)), now) ==> (approval_refusal(
            v,
            id,
            code,
            Some((hash, expires_at)),
            now,
        ) matches Some((status, _)) && status == 410),
        now < expires_at ==> !found_expired(code, Some((hash, expires_at)), now),
        valid_code(normal_code(code)) && now >= expires_at ==> found_expired(
            code,
            Some((hash, expires_at)),
            now,
        ),
        !found_expired(code, None, now),
{
}

/// Who waits after an agent has left.
pub open spec fn forgotten(v: Map<u128, PendingView>, id: u128) -> Map<u128, PendingView> {
    v.remove(id)
}

/// An agent that has left cannot be approved any more; the others wait on.
pub proof fn left_agent_is_not_approved(
    v: Map<u128, PendingView>,
    id: u128,
    other: u128,
    code: Seq<char>,
    stored: Option<(Seq<char>, i128)>,
    now: i128,
)
    requires
        other != id,
    ensures
        approval_refusal(forgotten(v, id), id, code, stored, now) is Some,
        approval_refusal(forgotten(v, id), other, code, stored, now) == approval_refusal(
            v,
            other,
            code,
            stored,
            now,
        ),
{
}

} // verus!
