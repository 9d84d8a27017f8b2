//! Short-lived signed access credentials. Claims are rendered into a
//! fixed-layout text payload, signed with HMAC-SHA256 through the trusted
//! boundary, and verified by recomputing the tag; verification tells an
//! elapsed validity window apart from a tampered or malformed credential.

use crate::UserId;
use crate::crypto::{
    accepted_tag, fresh_token_id, hmac_tag, hmac_verify_outcome, hs256_sign, hs256_verify,
    now_unix_seconds,
};
use crate::hexnum::{
    hex_seq_val, lemma_u64_hex_roundtrip, parse_u64_hex, push_u64_hex, u64_hex,
};
use crate::strutil::{str_chars, string_from_chars, subvec};
use vstd::prelude::*;
use vstd::string::StringExecFns;

verus! {

/// A subscription tier carried inside the claims.
#[derive(Clone, Copy, Debug, PartialEq, Eq, Structural)]
pub enum Plan {
    Free,
    ZedPro,
}

/// Process configuration as this subsystem sees it: the symmetric signing
/// secret, absent when none is provisioned.
#[derive(Clone, Debug)]
pub struct Config {
    pub llm_api_secret: Option<String>,
}

/// A user's billing preference record, reduced to the one field the
/// claims read.
#[derive(Clone, Copy, Debug, PartialEq, Eq, Structural)]
pub struct BillingPreferences {
    pub max_monthly_llm_usage_spending_in_cents: i32,
}

/// The spend ceiling used when no billing preference is on file.
pub const DEFAULT_MAX_MONTHLY_SPEND_IN_CENTS: u32 = 1000;

/// How long a credential stays valid after issuance.
pub const LLM_TOKEN_LIFETIME_SECONDS: u64 = 3600;

/// The claims embedded in a credential: identity, entitlement flags and a
/// spend ceiling, all fixed at issuance.
#[derive(Clone, Debug, PartialEq)]
pub struct LlmTokenClaims {
    pub iat: u64,
    pub exp: u64,
    pub jti: String,
    pub user_id: u64,
    pub github_user_login: String,
    pub is_staff: bool,
    pub has_llm_closed_beta_feature_flag: bool,
    pub has_llm_subscription: bool,
    pub max_monthly_spend_in_cents: u32,
    pub plan: Plan,
}

/// The mathematical image of a claims record.
pub ghost struct ClaimsView {
    pub iat: u64,
    pub exp: u64,
    pub jti: Seq<char>,
    pub user_id: u64,
    pub github_user_login: Seq<char>,
    pub is_staff: bool,
    pub has_llm_closed_beta_feature_flag: bool,
    pub has_llm_subscription: bool,
    pub max_monthly_spend_in_cents: u32,
    pub plan: Plan,
}

impl ClaimsView {
    /// String fields short enough that their length survives the 64-bit
    /// length prefix of the payload layout. Every executable claims
    /// record satisfies this.
    pub open spec fn wf(self) -> bool {
        &&& self.jti.len() <= u64::MAX
        &&& self.github_user_login.len() <= u64::MAX
    }
}

impl View for LlmTokenClaims {
    type V = ClaimsView;

    open spec fn view(&self) -> ClaimsView {
        ClaimsView {
            iat: self.iat,
            exp: self.exp,
            jti: self.jti@,
            user_id: self.user_id,
            github_user_login: self.github_user_login@,
            is_staff: self.is_staff,
            has_llm_closed_beta_feature_flag: self.has_llm_closed_beta_feature_flag,
            has_llm_subscription: self.has_llm_subscription,
            max_monthly_spend_in_cents: self.max_monthly_spend_in_cents,
            plan: self.plan,
        }
    }
}

/// How a flag is rendered in the payload.
pub open spec fn bool_char(b: bool) -> char {
    if b {
        '1'
    } else {
        '0'
    }
}

/// How a plan is rendered in the payload.
pub open spec fn plan_char(p: Plan) -> char {
    match p {
        Plan::Free => 'f',
        Plan::ZedPro => 'z',
    }
}

/// Reading a flag character back.
pub open spec fn char_bool(c: char) -> Option<bool> {
    if c == '1' {
        Some(true)
    } else if c == '0' {
        Some(false)
    } else {
        None
    }
}

/// Reading a plan character back.
pub open spec fn char_plan(c: char) -> Option<Plan> {
    if c == 'f' {
        Some(Plan::Free)
    } else if c == 'z' {
        Some(Plan::ZedPro)
    } else {
        None
    }
}

/// The payload layout: four 16-digit numbers (issued-at, expiry, user id,
/// spend ceiling), four single characters (three flags and the plan), and
/// the two strings, each preceded by its 16-digit length.
pub open spec fn spec_encode_claims(c: ClaimsView) -> Seq<char> {
    u64_hex(c.iat) + u64_hex(c.exp) + u64_hex(c.user_id) + u64_hex(
        c.max_monthly_spend_in_cents as u64,
    ) + seq![
        bool_char(c.is_staff),
        bool_char(c.has_llm_closed_beta_feature_flag),
        bool_char(c.has_llm_subscription),
        plan_char(c.plan),
    ] + u64_hex(c.jti.len() as u64) + c.jti + u64_hex(c.github_user_login.len() as u64)
        + c.github_user_login
}

/// Reading a payload back: `None` unless the text is exactly a payload of
/// the layout above.
pub open spec fn spec_parse_claims(s: Seq<char>) -> Option<ClaimsView> {
    if s.len() < 100 {
        None
    } else {
        let iat = hex_seq_val(s.subrange(0, 16));
        let exp = hex_seq_val(s.subrange(16, 32));
        let uid = hex_seq_val(s.subrange(32, 48));
        let spend = hex_seq_val(s.subrange(48, 64));
        let stf = char_bool(s[64]);
        let beta = char_bool(s[65]);
        let sub = char_bool(s[66]);
        let pl = char_plan(s[67]);
        let jl = hex_seq_val(s.subrange(68, 84));
        if iat is None || exp is None || uid is None || spend is None || spend->0 > u32::MAX
            || stf is None || beta is None || sub is None || pl is None || jl is None {
            None
        } else if 100 + jl->0 > s.len() {
            None
        } else {
            let jlen = jl->0;
            let ll = hex_seq_val(s.subrange(84 + jlen, 100 + jlen));
            if ll is None || 100 + jlen + ll->0 != s.len() {
                None
            } else {
                Some(
                    ClaimsView {
                        iat: iat->0 as u64,
                        exp: exp->0 as u64,
                        jti: s.subrange(84, 84 + jlen),
                        user_id: uid->0 as u64,
                        github_user_login: s.subrange(100 + jlen, s.len() as int),
                        is_staff: stf->0,
                        has_llm_closed_beta_feature_flag: beta->0,
                        has_llm_subscription: sub->0,
                        max_monthly_spend_in_cents: spend->0 as u32,
                        plan: pl->0,
                    },
                )
            }
        }
    }
}

/// A payload reads back as exactly the claims that produced it: the
/// rendering loses nothing.
pub proof fn lemma_claims_roundtrip(c: ClaimsView)
    requires
        c.wf(),
    ensures
        spec_parse_claims(spec_encode_claims(c)) == Some(c),
{
    let e = spec_encode_claims(c);
    let jlen = c.jti.len() as int;
    let llen = c.github_user_login.len() as int;
    assert(e.len() == 100 + jlen + llen);
    assert(e.subrange(0, 16) =~= u64_hex(c.iat));
    assert(e.subrange(16, 32) =~= u64_hex(c.exp));
    assert(e.subrange(32, 48) =~= u64_hex(c.user_id));
    assert(e.subrange(48, 64) =~= u64_hex(c.max_monthly_spend_in_cents as u64));
    assert(e.subrange(68, 84) =~= u64_hex(c.jti.len() as u64));
    assert(e.subrange(84, 84 + jlen) =~= c.jti);
    assert(e.subrange(84 + jlen, 100 + jlen) =~= u64_hex(c.github_user_login.len() as u64));
    assert(e.subrange(100 + jlen, e.len() as int) =~= c.github_user_login);
    lemma_u64_hex_roundtrip(c.iat);
    lemma_u64_hex_roundtrip(c.exp);
    lemma_u64_hex_roundtrip(c.user_id);
    lemma_u64_hex_roundtrip(c.max_monthly_spend_in_cents as u64);
    lemma_u64_hex_roundtrip(c.jti.len() as u64);
    lemma_u64_hex_roundtrip(c.github_user_login.len() as u64);
    assert(e[64] == bool_char(c.is_staff));
    assert(e[65] == bool_char(c.has_llm_closed_beta_feature_flag));
    assert(e[66] == bool_char(c.has_llm_subscription));
    assert(e[67] == plan_char(c.plan));
}

/// Renders the claims into their payload text.
pub fn encode_claims(c: &LlmTokenClaims) -> (r: String)
    ensures
        r@ == spec_encode_claims(c@),
{
    let mut out = String::new();
    push_u64_hex(&mut out, c.iat);
    push_u64_hex(&mut out, c.exp);
    push_u64_hex(&mut out, c.user_id);
    push_u64_hex(&mut out, c.max_monthly_spend_in_cents as u64);
    out.append(if c.is_staff { "1" } else { "0" });
    out.append(if c.has_llm_closed_beta_feature_flag { "1" } else { "0" });
    out.append(if c.has_llm_subscription { "1" } else { "0" });
    out.append(match c.plan { Plan::Free => "f", Plan::ZedPro => "z" });
    let jchars = str_chars(c.jti.as_str());
    push_u64_hex(&mut out, jchars.len() as u64);
    out.append(c.jti.as_str());
    let gchars = str_chars(c.github_user_login.as_str());
    push_u64_hex(&mut out, gchars.len() as u64);
    out.append(c.github_user_login.as_str());
    proof {
        reveal_strlit("0");
        reveal_strlit("1");
        reveal_strlit("f");
        reveal_strlit("z");
        assert(out@ =~= spec_encode_claims(c@));
    }
    out
}

/// Reads a payload back into a claims record.
pub fn parse_claims(v: &Vec<char>) -> (r: Option<LlmTokenClaims>)
    ensures
        match r {
            Some(c) => spec_parse_claims(v@) == Some(c@),
            None => spec_parse_claims(v@) is None,
        },
{
    if v.len() < 100 {
        return None;
    }
    let iat = match parse_u64_hex(v, 0) {
        Some(x) => x,
        None => return None,
    };
    let exp = match parse_u64_hex(v, 16) {
        Some(x) => x,
        None => return None,
    };
    let uid = match parse_u64_hex(v, 32) {
        Some(x) => x,
        None => return None,
    };
    let spend = match parse_u64_hex(v, 48) {
        Some(x) => x,
        None => return None,
    };
    if spend > 0xffff_ffffu64 {
        return None;
    }
    let is_staff = match read_bool(v[64]) {
        Some(b) => b,
        None => return None,
    };
    let beta = match read_bool(v[65]) {
        Some(b) => b,
        None => return None,
    };
    let sub = match read_bool(v[66]) {
        Some(b) => b,
        None => return None,
    };
    let plan = match read_plan(v[67]) {
        Some(p) => p,
        None => return None,
    };
    let jl = match parse_u64_hex(v, 68) {
        Some(x) => x,
        None => return None,
    };
    let len64: u64 = v.len() as u64;
    if jl > u64::MAX - 100 || 100 + jl > len64 {
        return None;
    }
    let jlen: usize = jl as usize;
    let jti_v = subvec(v, 84, 84 + jlen);
    let ll = match parse_u64_hex(v, 84 + jlen) {
        Some(x) => x,
        None => return None,
    };
    if ll != len64 - 100 - jl {
        return None;
    }
    let login_v = subvec(v, 100 + jlen, v.len());
    let jti = string_from_chars(&jti_v);
    let login = string_from_chars(&login_v);
    let c = LlmTokenClaims {
        iat,
        exp,
        jti,
        user_id: uid,
        github_user_login: login,
        is_staff,
        has_llm_closed_beta_feature_flag: beta,
        has_llm_subscription: sub,
        #[verifier::truncate]
        max_monthly_spend_in_cents: spend as u32,
        plan,
    };
    proof {
        assert(spec_parse_claims(v@) == Some(c@));
    }
    Some(c)
}

/// Why a credential failed to verify: the window elapsed (re-authenticate),
/// the text is malformed or tampered, or no signing secret is provisioned
/// (an operational fault, not a client fault).
#[derive(Clone, Copy, Debug, PartialEq, Eq, Structural)]
pub enum ValidateLlmTokenError {
    Expired,
    Invalid,
    MissingSecret,
}

/// Why issuance failed: no signing secret is provisioned.
#[derive(Clone, Copy, Debug, PartialEq, Eq, Structural)]
pub enum CreateLlmTokenError {
    MissingSecret,
}

/// The index of the last '.' in `s`, or -1 when there is none. The
/// signature tag follows the last '.' of a credential.
pub open spec fn last_dot_index(s: Seq<char>) -> int
    decreases s.len(),
{
    if s.len() == 0 {
        -1
    } else if s.last() == '.' {
        s.len() - 1
    } else {
        last_dot_index(s.drop_last())
    }
}

fn find_last_dot(v: &Vec<char>) -> (r: Option<usize>)
    ensures
        match r {
            Some(i) => last_dot_index(v@) == i && i < v@.len(),
            None => last_dot_index(v@) == -1,
        },
{
    let mut j: usize = v.len();
    proof {
        assert(v@.take(j as int) =~= v@);
    }
    while j > 0
        invariant
            j <= v@.len(),
            last_dot_index(v@) == last_dot_index(v@.take(j as int)),
        decreases j,
    {
        j = j - 1;
        proof {
            assert(v@.take(j + 1).drop_last() =~= v@.take(j as int));
            assert(v@.take(j + 1).last() == v@[j as int]);
        }
        if v[j] == '.' {
            return Some(j);
        }
    }
    None
}

/// The spend ceiling a credential is issued with: the billing preference
/// if one is on file, else the system-wide default.
pub open spec fn spec_spend_limit(bp: Option<BillingPreferences>) -> u32 {
    match bp {
        Some(p) => p.max_monthly_llm_usage_spending_in_cents as u32,
        None => DEFAULT_MAX_MONTHLY_SPEND_IN_CENTS,
    }
}

/// The expiry of a credential issued at `now_s`: one lifetime later,
/// clipped at the largest representable instant.
pub open spec fn spec_token_exp(now_s: u64) -> u64 {
    if now_s <= u64::MAX - LLM_TOKEN_LIFETIME_SECONDS {
        (now_s + LLM_TOKEN_LIFETIME_SECONDS) as u64
    } else {
        u64::MAX
    }
}

/// The claims minted at `now_s` with the fresh identifier `jti`.
pub open spec fn spec_created_claims(
    user_id: UserId,
    github_user_login: Seq<char>,
    is_staff: bool,
    billing_preferences: Option<BillingPreferences>,
    has_llm_closed_beta_feature_flag: bool,
    has_llm_subscription: bool,
    plan: Plan,
    now_s: u64,
    jti: Seq<char>,
) -> ClaimsView {
    ClaimsView {
        iat: now_s,
        exp: spec_token_exp(now_s),
        jti,
        user_id: user_id.0 as u64,
        github_user_login,
        is_staff,
        has_llm_closed_beta_feature_flag,
        has_llm_subscription,
        max_monthly_spend_in_cents: spec_spend_limit(billing_preferences),
        plan,
    }
}

/// The credential text for `c` under `secret`: the payload, a '.', and
/// the signature tag of the payload.
pub open spec fn spec_signed_token(c: ClaimsView, secret: Seq<char>) -> Seq<char> {
    spec_encode_claims(c) + seq!['.'] + hmac_tag(secret, spec_encode_claims(c))
}

/// What verifying `token` under `secret` at `now_s` yields: split at the
/// last '.', ask the backend whether the tag matches the payload, read
/// the payload back, and only then compare the expiry with the clock —
/// so `Expired` is reported only for a credential whose signature is
/// genuine.
pub open spec fn spec_validate(token: Seq<char>, secret: Seq<char>, now_s: u64) -> Result<
    ClaimsView,
    ValidateLlmTokenError,
> {
    let di = last_dot_index(token);
    if di < 0 {
        Err(ValidateLlmTokenError::Invalid)
    } else {
        let payload = token.take(di);
        let sig = token.skip(di + 1);
        if hmac_verify_outcome(secret, payload, sig) != Some(true) {
            Err(ValidateLlmTokenError::Invalid)
        } else {
            match spec_parse_claims(payload) {
                None => Err(ValidateLlmTokenError::Invalid),
                Some(c) => if now_s > c.exp {
                    Err(ValidateLlmTokenError::Expired)
                } else {
                    Ok(c)
                },
            }
        }
    }
}

impl LlmTokenClaims {
    /// Mints and signs a credential whose clock and identifier are given
    /// by the caller. Fails exactly when no secret is provisioned.
    pub fn create_at(
        user_id: UserId,
        github_user_login: String,
        is_staff: bool,
        billing_preferences: Option<BillingPreferences>,
        has_llm_closed_beta_feature_flag: bool,
        has_llm_subscription: bool,
        plan: Plan,
        config: &Config,
        now_s: u64,
        jti: String,
    ) -> (r: Result<String, CreateLlmTokenError>)
        ensures
            config.llm_api_secret is None <==> r == Err::<String, CreateLlmTokenError>(
                CreateLlmTokenError::MissingSecret,
            ),
            config.llm_api_secret matches Some(sec) ==> r matches Ok(tok) && tok@
                == spec_signed_token(
                spec_created_claims(
                    user_id,
                    github_user_login@,
                    is_staff,
                    billing_preferences,
                    has_llm_closed_beta_feature_flag,
                    has_llm_subscription,
                    plan,
                    now_s,
                    jti@,
                ),
                sec@,
            ),
    {
        let secret = match &config.llm_api_secret {
            Some(s) => s,
            None => return Err(CreateLlmTokenError::MissingSecret),
        };
        let exp = if now_s <= u64::MAX - LLM_TOKEN_LIFETIME_SECONDS {
            now_s + LLM_TOKEN_LIFETIME_SECONDS
        } else {
            u64::MAX
        };
        let spend = match &billing_preferences {
            Some(p) => {
                #[verifier::truncate]
                let s = p.max_monthly_llm_usage_spending_in_cents as u32;
                s
            },
            None => DEFAULT_MAX_MONTHLY_SPEND_IN_CENTS,
        };
        let claims = LlmTokenClaims {
            iat: now_s,
            exp,
            jti,
            user_id: user_id.to_proto(),
            github_user_login,
            is_staff,
            has_llm_closed_beta_feature_flag,
            has_llm_subscription,
            max_monthly_spend_in_cents: spend,
            plan,
        };
        let mut token = encode_claims(&claims);
        let tag = hs256_sign(secret.as_str(), token.as_str());
        token.append(".");
        token.append(tag.as_str());
        proof {
            reveal_strlit(".");
            assert(token@ =~= spec_signed_token(claims@, secret@));
        }
        Ok(token)
    }

    /// Mints and signs a credential: issued now, expiring one lifetime
    /// later, with a fresh random identifier. Fails exactly when no
    /// secret is provisioned.
    pub fn create(
        user_id: UserId,
        github_user_login: String,
        is_staff: bool,
        billing_preferences: Option<BillingPreferences>,
        has_llm_closed_beta_feature_flag: bool,
        has_llm_subscription: bool,
        plan: Plan,
        config: &Config,
    ) -> (r: Result<String, CreateLlmTokenError>)
        ensures
            config.llm_api_secret is None <==> r == Err::<String, CreateLlmTokenError>(
                CreateLlmTokenError::MissingSecret,
            ),
            config.llm_api_secret matches Some(sec) ==> r matches Ok(tok) && exists|
                now_s: u64,
                jti: Seq<char>,
            |
                tok@ == spec_signed_token(
                    #[trigger] spec_created_claims(
                        user_id,
                        github_user_login@,
                        is_staff,
                        billing_preferences,
                        has_llm_closed_beta_feature_flag,
                        has_llm_subscription,
                        plan,
                        now_s,
                        jti,
                    ),
                    sec@,
                ),
    {
        let now_s = now_unix_seconds();
        let jti = fresh_token_id();
        let ghost jti_view = jti@;
        let r = Self::create_at(
            user_id,
            github_user_login,
            is_staff,
            billing_preferences,
            has_llm_closed_beta_feature_flag,
            has_llm_subscription,
            plan,
            config,
            now_s,
            jti,
        );
        proof {
            if config.llm_api_secret is Some {
                let c = spec_created_claims(
                    user_id,
                    github_user_login@,
                    is_staff,
                    billing_preferences,
                    has_llm_closed_beta_feature_flag,
                    has_llm_subscription,
                    plan,
                    now_s,
                    jti_view,
                );
                assert(r matches Ok(tok) && tok@ == spec_signed_token(
                    c,
                    config.llm_api_secret->0@,
                ));
            }
        }
        r
    }

    /// Verifies a credential against the clock value `now_s`. With a
    /// provisioned secret the result is exactly what `spec_validate`
    /// says: the claims, or `Expired` precisely when only the window has
    /// elapsed, or `Invalid` for anything unsigned, tampered or
    /// malformed.
    pub fn validate_at(token: &str, config: &Config, now_s: u64) -> (r: Result<
        LlmTokenClaims,
        ValidateLlmTokenError,
    >)
        ensures
            config.llm_api_secret is None <==> r == Err::<LlmTokenClaims, ValidateLlmTokenError>(
                ValidateLlmTokenError::MissingSecret,
            ),
            config.llm_api_secret matches Some(sec) ==> (match r {
                Ok(c) => spec_validate(token@, sec@, now_s) == Ok::<
                    ClaimsView,
                    ValidateLlmTokenError,
                >(c@),
                Err(e) => spec_validate(token@, sec@, now_s) == Err::<
                    ClaimsView,
                    ValidateLlmTokenError,
                >(e),
            }),
    {
        let secret = match &config.llm_api_secret {
            Some(s) => s,
            None => return Err(ValidateLlmTokenError::MissingSecret),
        };
        let tv = str_chars(token);
        let di = match find_last_dot(&tv) {
            Some(i) => i,
            None => return Err(ValidateLlmTokenError::Invalid),
        };
        let n = tv.len();
        let payload = subvec(&tv, 0, di);
        let sig = subvec(&tv, di + 1, n);
        proof {
            assert(payload@ =~= token@.take(di as int));
            assert(sig@ =~= token@.skip(di + 1));
        }
        match hs256_verify(secret.as_str(), &payload, &sig) {
            Some(true) => (),
            _ => return Err(ValidateLlmTokenError::Invalid),
        }
        let claims = match parse_claims(&payload) {
            Some(c) => c,
            None => return Err(ValidateLlmTokenError::Invalid),
        };
        if now_s > claims.exp {
            return Err(ValidateLlmTokenError::Expired);
        }
        Ok(claims)
    }

    /// Verifies a credential against the current clock.
    pub fn validate(token: &str, config: &Config) -> (r: Result<
        LlmTokenClaims,
        ValidateLlmTokenError,
    >)
        ensures
            config.llm_api_secret is None <==> r == Err::<LlmTokenClaims, ValidateLlmTokenError>(
                ValidateLlmTokenError::MissingSecret,
            ),
            config.llm_api_secret matches Some(sec) ==> exists|now_s: u64|
                (match r {
                    Ok(c) => #[trigger] spec_validate(token@, sec@, now_s) == Ok::<
                        ClaimsView,
                        ValidateLlmTokenError,
                    >(c@),
                    Err(e) => spec_validate(token@, sec@, now_s) == Err::<
                        ClaimsView,
                        ValidateLlmTokenError,
                    >(e),
                }),
    {
        let now_s = now_unix_seconds();
        let r = Self::validate_at(token, config, now_s);
        proof {
            if config.llm_api_secret is Some {
                let sec = config.llm_api_secret->0;
                assert(match r {
                    Ok(c) => spec_validate(token@, sec@, now_s) == Ok::<
                        ClaimsView,
                        ValidateLlmTokenError,
                    >(c@),
                    Err(e) => spec_validate(token@, sec@, now_s) == Err::<
                        ClaimsView,
                        ValidateLlmTokenError,
                    >(e),
                });
            }
        }
        r
    }
}

proof fn lemma_last_dot_of_token(p: Seq<char>, t: Seq<char>)
    requires
        forall|i: int| 0 <= i < t.len() ==> t[i] != '.',
    ensures
        last_dot_index(p + seq!['.'] + t) == p.len(),
    decreases t.len(),
{
    if t.len() == 0 {
        assert(p + seq!['.'] + t =~= p + seq!['.']);
        assert((p + seq!['.']).last() == '.');
    } else {
        assert((p + seq!['.'] + t).last() == t.last());
        assert((p + seq!['.'] + t).drop_last() =~= p + seq!['.'] + t.drop_last());
        lemma_last_dot_of_token(p, t.drop_last());
    }
}

/// A credential verified within its window yields exactly the claims it
/// was issued with — the round trip — given the one fact the signing
/// wrapper states about the outside cryptography: the verifier accepts
/// the signer's tag, whose alphabet has no '.'.
pub proof fn lemma_issue_then_verify(c: ClaimsView, secret: Seq<char>, now_s: u64)
    requires
        c.wf(),
        accepted_tag(secret, spec_encode_claims(c), hmac_tag(secret, spec_encode_claims(c))),
        now_s <= c.exp,
    ensures
        spec_validate(spec_signed_token(c, secret), secret, now_s) == Ok::<
            ClaimsView,
            ValidateLlmTokenError,
        >(c),
{
    let p = spec_encode_claims(c);
    let t = hmac_tag(secret, p);
    let tok = spec_signed_token(c, secret);
    lemma_last_dot_of_token(p, t);
    assert(tok.take(p.len() as int) =~= p);
    assert(tok.skip(p.len() as int + 1) =~= t);
    lemma_claims_roundtrip(c);
}

/// A credential verified strictly after its window, with a genuine
/// signature, yields `Expired` — never `Invalid`.
pub proof fn lemma_expired_not_invalid(c: ClaimsView, secret: Seq<char>, now_s: u64)
    requires
        c.wf(),
        accepted_tag(secret, spec_encode_claims(c), hmac_tag(secret, spec_encode_claims(c))),
        now_s > c.exp,
    ensures
        spec_validate(spec_signed_token(c, secret), secret, now_s) == Err::<
            ClaimsView,
            ValidateLlmTokenError,
        >(ValidateLlmTokenError::Expired),
{
    let p = spec_encode_claims(c);
    let t = hmac_tag(secret, p);
    let tok = spec_signed_token(c, secret);
    lemma_last_dot_of_token(p, t);
    assert(tok.take(p.len() as int) =~= p);
    assert(tok.skip(p.len() as int + 1) =~= t);
    lemma_claims_roundtrip(c);
}

/// A credential whose signature the backend does not accept — tampered,
/// corrupted or absent — yields `Invalid`, whatever the clock says: it
/// never decodes successfully.
pub proof fn lemma_bad_signature_rejected(token: Seq<char>, secret: Seq<char>, now_s: u64)
    requires
        last_dot_index(token) >= 0 ==> hmac_verify_outcome(
            secret,
            token.take(last_dot_index(token)),
            token.skip(last_dot_index(token) + 1),
        ) != Some(true),
    ensures
        spec_validate(token, secret, now_s) == Err::<ClaimsView, ValidateLlmTokenError>(
            ValidateLlmTokenError::Invalid,
        ),
{
}

fn read_bool(c: char) -> (r: Option<bool>)
    ensures
        r == char_bool(c),
{
    match c {
        '1' => Some(true),
        '0' => Some(false),
        _ => None,
    }
}

fn read_plan(c: char) -> (r: Option<Plan>)
    ensures
        r == char_plan(c),
{
    match c {
        'f' => Some(Plan::Free),
        'z' => Some(Plan::ZedPro),
        _ => None,
    }
}

} // verus!
