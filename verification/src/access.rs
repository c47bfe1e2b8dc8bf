//! Cloudflare Access: the signed token that the tunnel puts on every request, and the one identity
//! that is let through. Whatever cannot be checked is refused.

use crate::claims::{claim_of, token_claim};
use crate::config::AccessConfig;
use crate::text::{eq_ignore_ascii_case, join2, join3, opt_view, same, same_ignoring_case};
use serde::de::IgnoredAny;
use vstd::prelude::*;

verus! {

broadcast use vstd::string::group_string_axioms;

/// Least time between two fetches of the signing keys, in nanoseconds.
pub const JWKS_MIN_REFRESH: u64 = 60_000_000_000;

/// A signing key: its identifier and the key itself as JSON.
pub struct SigningKey {
    pub kid: Option<String>,
    pub json: String,
}

impl View for SigningKey {
    type V = (Option<Seq<char>>, Seq<char>);

    open spec fn view(&self) -> (Option<Seq<char>>, Seq<char>) {
        (opt_view(self.kid), self.json@)
    }
}

/// What the header of a token says: the algorithm and the identifier of the key.
pub struct TokenHeader {
    pub alg: String,
    pub kid: Option<String>,
}

/// Why a token is refused.
#[derive(Debug)]
pub enum AccessError {
    /// The token has no readable header.
    Malformed,
    /// The token is not signed with RS256.
    UnexpectedAlgorithm,
    /// The token names no key.
    NoKid,
    /// None of the known keys has that name.
    UnknownKey,
    /// Signature, audience, issuer, expiry or payload are not as they should be.
    Rejected,
    /// The token is in order but belongs to someone else.
    NotAllowed(String),
}

/// The signing keys could not be read.
#[derive(Clone, Copy, Debug, PartialEq, Eq, Structural)]
pub struct BadKeySet;

/// What is to be done about a token.
pub enum Attempt {
    /// Fetch the signing keys, and try again.
    Fetch,
    /// The verdict.
    Done(Result<String, AccessError>),
}

/// The views of a list of keys.
pub open spec fn key_views(keys: Seq<SigningKey>) -> Seq<(Option<Seq<char>>, Seq<char>)> {
    keys.map_values(|k: SigningKey| k@)
}

/// The texts of a list.
pub open spec fn texts(list: Seq<&str>) -> Seq<Seq<char>> {
    list.map_values(|s: &str| s@)
}

/// Algorithm and key identifier in the header of a token, if it has a readable one.
pub uninterp spec fn token_header(token: Seq<char>) -> Option<(Seq<char>, Option<Seq<char>>)>;

/// The keys of a key set document, if it is one.
pub uninterp spec fn key_set(body: Seq<u8>) -> Option<Seq<(Option<Seq<char>>, Seq<char>)>>;

/// Whether a token is in order under a key at a moment, in seconds since 1970: its signature, its
/// audience, its issuer, that it makes the required claims, and that it has not expired.
pub uninterp spec fn token_in_order(
    token: Seq<char>,
    key: Seq<char>,
    alg: Seq<char>,
    aud: Seq<char>,
    iss: Seq<char>,
    required: Seq<Seq<char>>,
    now: u64,
) -> bool;

/// `jsonwebtoken::decode_header` reads the header of a token without checking anything.
#[verifier::external_body]
fn read_header(token: &str) -> (r: Option<TokenHeader>)
    ensures
        match r {
            Some(h) => token_header(token@) == Some((h.alg@, opt_view(h.kid))),
            None => token_header(token@) is None,
        },
{
    let header = jsonwebtoken::decode_header(token).ok()?;
    Some(TokenHeader { alg: format!("{:?}", header.alg), kid: header.kid })
}

/// `serde_json::from_slice` reads a `jsonwebtoken::jwk::JwkSet`; each of its keys is handed on as
/// its identifier and its own JSON.
#[verifier::external_body]
fn read_key_set(body: &[u8]) -> (r: Option<Vec<SigningKey>>)
    ensures
        match r {
            Some(keys) => key_set(body@) == Some(key_views(keys@)),
            None => key_set(body@) is None,
        },
{
    let set: jsonwebtoken::jwk::JwkSet = serde_json::from_slice(body).ok()?;
    let each = set.keys.iter().map(|k| {
        let json = serde_json::to_string(k).ok()?;
        Some(SigningKey { kid: k.common.key_id.clone(), json })
    });
    each.collect()
}

/// `jsonwebtoken::decode` checks a token against a key, with a `Validation` for one algorithm, one
/// audience, one issuer and the required claims. A token that has expired is refused too: it reads
/// the system's clock once, and what comes of it rests on that moment and its arguments alone. Which
/// moment that is, is not said. Other algorithms are left out: with one of them it panics on a key
/// that is too short.
#[verifier::external_body]
fn check_token(token: &str, key: &str, alg: &str, aud: &str, iss: &str, required: &[&str]) -> (r:
    Option<()>)
    requires
        alg@ == "RS256"@,
    ensures
        exists|now: u64|
            r is Some == #[trigger] token_in_order(
                token@,
                key@,
                alg@,
                aud@,
                iss@,
                texts(required@),
                now,
            ),
{
    let jwk: jsonwebtoken::jwk::Jwk = serde_json::from_str(key).ok()?;
    let key = jsonwebtoken::DecodingKey::from_jwk(&jwk).ok()?;
    let mut v = jsonwebtoken::Validation::new(alg.parse().ok()?);
    v.set_audience(&[aud]);
    v.set_issuer(&[iss]);
    v.set_required_spec_claims(required);
    jsonwebtoken::decode::<IgnoredAny>(token, &key, &v).ok().map(|_| ())
}

/// The claims that a token must have.
pub open spec fn required_claims() -> Seq<Seq<char>> {
    seq!["exp"@, "aud"@, "iss"@]
}

/// Whether the `i`-th key is the first of the keys that has the identifier `kid`.
pub open spec fn first_with(
    keys: Seq<(Option<Seq<char>>, Seq<char>)>,
    kid: Seq<char>,
    i: int,
) -> bool {
    &&& 0 <= i < keys.len()
    &&& keys[i].0 == Some(kid)
    &&& forall|j: int| 0 <= j < i ==> (#[trigger] keys[j]).0 != Some(kid)
}

/// Whether some key has the identifier `kid`.
pub open spec fn has_key(keys: Seq<(Option<Seq<char>>, Seq<char>)>, kid: Seq<char>) -> bool {
    exists|i: int| 0 <= i < keys.len() && (#[trigger] keys[i]).0 == Some(kid)
}

/// What follows from the e-mail claim of a checked token: no claim counts as an empty address.
pub open spec fn verdict(email: Option<Option<Seq<char>>>, allowed: Seq<char>) -> Result<
    Seq<char>,
    Option<Seq<char>>,
> {
    match email {
        None => Err(None),
        Some(e) => {
            let address = match e {
                Some(a) => a,
                None => Seq::empty(),
            };
            if same_ignoring_case(address, allowed) {
                Ok(address)
            } else {
                Err(Some(address))
            }
        },
    }
}

/// Decides on the e-mail claim of a checked token; `None` stands for a token that was rejected.
pub fn judge(email: Option<Option<String>>, allowed: &str) -> (r: Result<String, AccessError>)
    ensures
        match r {
            Ok(address) => email is Some && verdict(Some(opt_view(email->0)), allowed@) == Ok::<
                Seq<char>,
                Option<Seq<char>>,
            >(address@),
            Err(AccessError::Rejected) => email is None,
            Err(AccessError::NotAllowed(address)) => email is Some && verdict(
                Some(opt_view(email->0)),
                allowed@,
            ) == Err::<Seq<char>, Option<Seq<char>>>(Some(address@)),
            Err(_) => false,
        },
{
    match email {
        None => Err(AccessError::Rejected),
        Some(e) => {
            let address = match e {
                Some(a) => a,
                None => String::new(),
            };
            if eq_ignore_ascii_case(&address, allowed) {
                Ok(address)
            } else {
                Err(AccessError::NotAllowed(address))
            }
        },
    }
}

/// Decides on a token, `checked` saying whether it was found to be in order: the claim is read out of
/// the token itself.
pub fn verdict_on(token: &str, checked: Option<()>, allowed: &str) -> (r: Result<
    String,
    AccessError,
>)
    ensures
        match verdict(
            if checked is Some {
                claim_of(token@, "email"@)
            } else {
                None
            },
            allowed@,
        ) {
            Ok(address) => r matches Ok(a) && a@ == address,
            Err(None) => r matches Err(e) && e is Rejected,
            Err(Some(address)) => r matches Err(AccessError::NotAllowed(a)) && a@ == address,
        },
{
    let email = match checked {
        Some(()) => token_claim(token, "email"),
        None => None,
    };
    judge(email, allowed)
}

/// What is to be done after a token was looked at. Where only its key was unknown, the keys are
/// fetched, if that has not been done and is due. Otherwise what was found stands.
pub fn act_on(verdict: Result<String, AccessError>, fetched: bool, due: bool) -> (a: Attempt)
    ensures
        a is Fetch <==> (verdict matches Err(e) && e is UnknownKey) && !fetched && due,
        a matches Attempt::Done(r) ==> r == verdict,
{
    if let Err(AccessError::UnknownKey) = verdict {
        if !fetched && due {
            return Attempt::Fetch;
        }
    }
    Attempt::Done(verdict)
}

/// The address of the signing keys of a team.
pub open spec fn certs_url_of(team_domain: Seq<char>) -> Seq<char> {
    "https://"@ + team_domain + "/cdn-cgi/access/certs"@
}

/// The issuer of the tokens of a team.
pub open spec fn issuer_of(team_domain: Seq<char>) -> Seq<char> {
    "https://"@ + team_domain
}

/// Checks the tokens of one Access application.
pub struct AccessVerifier {
    cfg: AccessConfig,
    certs_url: String,
    keys: Vec<SigningKey>,
    fetched_at: Option<u64>,
}

impl AccessVerifier {
    /// The application and the identity that is let through.
    pub closed spec fn config(&self) -> AccessConfig {
        self.cfg
    }

    /// The known signing keys.
    pub closed spec fn keys(&self) -> Seq<(Option<Seq<char>>, Seq<char>)> {
        key_views(self.keys@)
    }

    /// When the signing keys were last fetched.
    pub closed spec fn fetched(&self) -> Option<u64> {
        self.fetched_at
    }

    /// That the keys come from where the team has them.
    pub closed spec fn wf(&self) -> bool {
        self.certs_url@ == certs_url_of(self.cfg.team_domain@)
    }

    /// A verifier that knows no keys yet.
    pub fn new(cfg: AccessConfig) -> (v: AccessVerifier)
        ensures
            v.wf(),
            v.config() == cfg,
            v.keys() == Seq::<(Option<Seq<char>>, Seq<char>)>::empty(),
            v.fetched() is None,
    {
        let certs_url = join3("https://", &cfg.team_domain, "/cdn-cgi/access/certs");
        let v = AccessVerifier { cfg, certs_url, keys: Vec::new(), fetched_at: None };
        assert(v.keys() =~= Seq::empty());
        v
    }

    /// Where the signing keys are to be fetched from.
    pub fn certs_url(&self) -> (url: String)
        requires
            self.wf(),
        ensures
            url@ == certs_url_of(self.config().team_domain@),
    {
        self.certs_url.clone()
    }

    /// Whether the signing keys may be fetched now: not within a minute of the last time.
    pub open spec fn due(&self, now: u64) -> bool {
        self.fetched() matches Some(t) ==> now - t >= JWKS_MIN_REFRESH
    }

    /// Whether the signing keys may be fetched now.
    pub fn refresh_due(&self, now: u64) -> (b: bool)
        ensures
            b == self.due(now),
    {
        match self.fetched_at {
            Some(t) => now >= t && now - t >= JWKS_MIN_REFRESH,
            None => true,
        }
    }

    /// Takes over a key set document that was fetched at `now`, in place of the known keys. One
    /// that cannot be read changes nothing.
    pub fn install(&mut self, body: &[u8], now: u64) -> (r: Result<(), BadKeySet>)
        requires
            old(self).wf(),
        ensures
            final(self).wf(),
            final(self).config() == old(self).config(),
            match key_set(body@) {
                Some(keys) => r is Ok && final(self).keys() == keys && final(self).fetched()
                    == Some(now),
                None => r is Err && *final(self) == *old(self),
            },
    {
        match read_key_set(body) {
            Some(keys) => {
                self.keys = keys;
                self.fetched_at = Some(now);
                Ok(())
            },
            None => Err(BadKeySet),
        }
    }

    fn find(&self, kid: &str) -> (r: Option<usize>)
        ensures
            match r {
                Some(i) => i < self.keys@.len() && first_with(self.keys(), kid@, i as int),
                None => !has_key(self.keys(), kid@),
            },
    {
        let mut i: usize = 0;
        while i < self.keys.len()
            invariant
                i <= self.keys@.len(),
                forall|j: int| 0 <= j < i ==> (#[trigger] self.keys()[j]).0 != Some(kid@),
            decreases self.keys@.len() - i,
        {
            assert(self.keys()[i as int] == self.keys@[i as int]@);
            if let Some(k) = &self.keys[i].kid {
                if same(k, kid) {
                    return Some(i);
                }
            }
            i += 1;
        }
        None
    }

    /// What is to be said of a token, `email` being what came of checking it with its key.
    pub open spec fn finding(
        &self,
        token: Seq<char>,
        email: spec_fn(Seq<char>) -> Option<Option<Seq<char>>>,
        r: Result<String, AccessError>,
    ) -> bool {
        match token_header(token) {
            None => r matches Err(e) && e is Malformed,
            Some((alg, kid)) => if alg != "RS256"@ {
                r matches Err(e) && e is UnexpectedAlgorithm
            } else {
                match kid {
                    None => r matches Err(e) && e is NoKid,
                    Some(kid) => if !has_key(self.keys(), kid) {
                        r matches Err(e) && e is UnknownKey
                    } else {
                        exists|i: int| #[trigger]
                            first_with(self.keys(), kid, i) && match verdict(
                                email(self.keys()[i].1),
                                self.config().allowed_email@,
                            ) {
                                Ok(address) => r matches Ok(a) && a@ == address,
                                Err(None) => r matches Err(e) && e is Rejected,
                                Err(Some(address)) => r matches Err(AccessError::NotAllowed(a))
                                    && a@ == address,
                            }
                    },
                }
            },
        }
    }

    /// The e-mail claim under a key, for this application, at a moment.
    pub open spec fn claim(&self, token: Seq<char>, key: Seq<char>, now: u64) -> Option<
        Option<Seq<char>>,
    > {
        if token_in_order(
            token,
            key,
            "RS256"@,
            self.config().aud@,
            issuer_of(self.config().team_domain@),
            required_claims(),
            now,
        ) {
            claim_of(token, "email"@)
        } else {
            None
        }
    }

    /// The verified address of the bearer of a token. Only a token that is in order for this
    /// application, under a known key, comes through, and only for the one identity allowed; one
    /// that has expired is rejected, as one that is not in order.
    pub fn verify(&self, token: &str) -> (r: Result<String, AccessError>)
        ensures
            self.may_say(token@, r),
    {
        let header = match read_header(token) {
            Some(h) => h,
            None => {
                let r = Err(AccessError::Malformed);
                assert(self.says_at(token@, 0, r));
                return r;
            },
        };
        if !same(&header.alg, "RS256") {
            let r = Err(AccessError::UnexpectedAlgorithm);
            assert(self.says_at(token@, 0, r));
            return r;
        }
        let kid = match header.kid {
            Some(k) => k,
            None => {
                let r = Err(AccessError::NoKid);
                assert(self.says_at(token@, 0, r));
                return r;
            },
        };
        let i: usize = match self.find(&kid) {
            Some(i) => i,
            None => {
                let r = Err(AccessError::UnknownKey);
                assert(self.says_at(token@, 0, r));
                return r;
            },
        };
        let issuer = join2("https://", &self.cfg.team_domain);
        let required: [&str; 3] = ["exp", "aud", "iss"];
        assert(texts(required@) =~= required_claims());
        assert(self.keys()[i as int] == self.keys@[i as int]@);
        assert(first_with(self.keys(), kid@, i as int));
        assert(has_key(self.keys(), kid@));
        let checked = check_token(
            token,
            &self.keys[i].json,
            "RS256",
            &self.cfg.aud,
            &issuer,
            required.as_slice(),
        );
        let r = verdict_on(token, checked, &self.cfg.allowed_email);
        proof {
            let key = self.keys()[i as int].1;
            let now = choose|now: u64|
                checked is Some == #[trigger] token_in_order(
                    token@,
                    key,
                    "RS256"@,
                    self.config().aud@,
                    issuer_of(self.config().team_domain@),
                    required_claims(),
                    now,
                );
            assert(self.says_at(token@, now, r));
        }
        r
    }

    /// Whether a token fails for want of its key alone.
    pub open spec fn lacks_key(&self, token: Seq<char>) -> bool {
        token_header(token) matches Some((alg, Some(kid))) && alg == "RS256"@ && !has_key(
            self.keys(),
            kid,
        )
    }

    /// What is to be said of a token at a moment.
    pub open spec fn says_at(
        &self,
        token: Seq<char>,
        now: u64,
        r: Result<String, AccessError>,
    ) -> bool {
        self.finding(token, |key: Seq<char>| self.claim(token, key, now), r)
    }

    /// What a verdict on a token can be: that of some moment.
    pub open spec fn may_say(&self, token: Seq<char>, r: Result<String, AccessError>) -> bool {
        exists|now: u64| #[trigger] self.says_at(token, now, r)
    }

    /// One round of checking a token: where its key is unknown, the keys are fetched once if that
    /// is due, and the token is tried again; `fetched` says whether that has been done.
    pub fn attempt(&self, token: &str, fetched: bool, now: u64) -> (a: Attempt)
        ensures
            a is Fetch <==> self.lacks_key(token@) && !fetched && self.due(now),
            a matches Attempt::Done(r) ==> self.may_say(token@, r),
    {
        let verdict = self.verify(token);
        act_on(verdict, fetched, self.refresh_due(now))
    }
}

/// Whatever is not in order is refused: an address comes out only for a token whose header names
/// RS256 and a known key, that is in order under that key for this application, and whose address
/// is the allowed one up to the case of its letters.
pub proof fn only_the_owner_passes(v: AccessVerifier, token: Seq<char>, r: Result<
    String,
    AccessError,
>)
    requires
        v.may_say(token, r),
    ensures
        r matches Ok(address) ==> {
            &&& same_ignoring_case(address@, v.config().allowed_email@)
            &&& token_header(token) matches Some((alg, Some(kid)))
            &&& alg == "RS256"@
            &&& exists|i: int, now: u64|
                #![trigger first_with(v.keys(), kid, i), v.claim(token, v.keys()[i].1, now)]
                first_with(v.keys(), kid, i) && v.claim(token, v.keys()[i].1, now) is Some
        },
{
    if let Ok(address) = r {
        let now = choose|now: u64| #[trigger] v.says_at(token, now, r);
        let (alg, kid) = token_header(token)->0;
        let i = choose|i: int| #[trigger]
            first_with(v.keys(), kid->0, i) && match verdict(
                v.claim(token, v.keys()[i].1, now),
                v.config().allowed_email@,
            ) {
                Ok(a) => a == address@,
                _ => false,
            };
        assert(v.claim(token, v.keys()[i].1, now) is Some);
    }
}

/// The first key that has the name in the header decides, wherever it stands among the keys. At the
/// moment at which it is looked at, the token is in order under that key or not. If not, it is
/// rejected. If so, its e-mail claim decides: the bearer is let in exactly if it is the allowed
/// address up to the case of letters, and a token without the claim bears the empty address.
pub proof fn the_named_key_decides(
    v: AccessVerifier,
    token: Seq<char>,
    kid: Seq<char>,
    i: int,
    required: Seq<Seq<char>>,
    r: Result<String, AccessError>,
)
    requires
        required == seq!["exp"@, "aud"@, "iss"@],
        v.may_say(token, r),
        token_header(token) == Some(("RS256"@, Some(kid))),
        0 <= i < v.keys().len(),
        v.keys()[i].0 == Some(kid),
        forall|j: int| 0 <= j < i ==> (#[trigger] v.keys()[j]).0 != Some(kid),
    ensures
        exists|now: u64| ({
            let passes = #[trigger] token_in_order(
                token,
                v.keys()[i].1,
                "RS256"@,
                v.config().aud@,
                "https://"@ + v.config().team_domain@,
                required,
                now,
            );
            let email = claim_of(token, "email"@);
            let address = if email == Some(None::<Seq<char>>) {
                Seq::<char>::empty()
            } else {
                email->0->0
            };
            let allowed = same_ignoring_case(address, v.config().allowed_email@);
            if !passes || email is None {
                r matches Err(e) && e is Rejected
            } else if allowed {
                r matches Ok(a) && a@ == address
            } else {
                r matches Err(AccessError::NotAllowed(a)) && a@ == address
            }
        }),
{
    let now = choose|now: u64| #[trigger] v.says_at(token, now, r);
    assert(has_key(v.keys(), kid));
    assert(first_with(v.keys(), kid, i));
    assert forall|k: int| #[trigger] first_with(v.keys(), kid, k) implies k == i by {
        if k < i {
            assert(v.keys()[k].0 != Some(kid));
        } else if i < k {
            assert(v.keys()[i].0 != Some(kid));
        }
    }
    let passes = token_in_order(
        token,
        v.keys()[i].1,
        "RS256"@,
        v.config().aud@,
        "https://"@ + v.config().team_domain@,
        required,
        now,
    );
}

/// A token whose key cannot be told is refused for just that reason, whatever the time, and only a
/// key that is not known makes the keys worth fetching.
pub proof fn tokens_without_a_key_are_refused(
    v: AccessVerifier,
    token: Seq<char>,
    r: Result<String, AccessError>,
)
    requires
        v.may_say(token, r),
    ensures
        token_header(token) is None <==> (r matches Err(e) && e is Malformed),
        (token_header(token) matches Some((alg, _)) && alg != "RS256"@) <==> (r matches Err(e)
            && e is UnexpectedAlgorithm),
        token_header(token) == Some(("RS256"@, None::<Seq<char>>)) <==> (r matches Err(e)
            && e is NoKid),
        v.lacks_key(token) <==> (r matches Err(e) && e is UnknownKey),
        v.lacks_key(token) <==> (token_header(token) matches Some((alg, Some(kid))) && alg
            == "RS256"@ && forall|j: int| 0 <= j < v.keys().len() ==> (#[trigger] v.keys()[j]).0
            != Some(kid)),
{
    let now = choose|now: u64| #[trigger] v.says_at(token, now, r);
}

/// The keys may be fetched if they never were, or a minute ago or longer, and not otherwise.
pub proof fn a_minute_passes_between_fetches(v: AccessVerifier, now: u64)
    ensures
        v.fetched() is None ==> v.due(now),
        v.fetched() matches Some(at) ==> (v.due(now) <==> now >= at + 60 * 1_000_000_000),
{
}

/// The keys are not fetched again within a minute of a successful fetch.
pub proof fn keys_are_fetched_at_most_once_a_minute(v: AccessVerifier, at: u64, now: u64)
    requires
        v.fetched() == Some(at),
        now < at + JWKS_MIN_REFRESH,
    ensures
        !v.due(now),
{
}

/// The keys of a team lie under its own domain, reached over https, and its tokens name that domain as
/// their issuer.
pub proof fn teams_have_their_own_address(team_domain: Seq<char>)
    ensures
        issuer_of(team_domain) == "https://"@ + team_domain,
        certs_url_of(team_domain) == issuer_of(team_domain) + "/cdn-cgi/access/certs"@,
{
}

/// Who bears a checked token is decided by its e-mail claim alone: without one that can be read it is
/// nobody, and without one at all the address is empty. Only the allowed address passes, up to the case
/// of letters, and it is handed on as the token has it.
pub proof fn the_claimed_address_decides(address: Seq<char>, allowed: Seq<char>)
    ensures
        verdict(None, allowed) == Err::<Seq<char>, Option<Seq<char>>>(None),
        same_ignoring_case(address, allowed) ==> verdict(Some(Some(address)), allowed) == Ok::<
            Seq<char>,
            Option<Seq<char>>,
        >(address),
        !same_ignoring_case(address, allowed) ==> verdict(Some(Some(address)), allowed) == Err::<
            Seq<char>,
            Option<Seq<char>>,
        >(Some(address)),
        verdict(Some(None), allowed) == verdict(Some(Some(Seq::<char>::empty())), allowed),
{
}

} // verus!
