//! The agent's settings and what it keeps between runs.

use crate::capture::EncoderChoice;
use crate::net::{endpoint, IpAddr, SocketAddr};
use crate::text::{begins_with, chars_of, join3, same, slice_begins_with, starts_with, text_of};
use vstd::prelude::*;

verus! {

broadcast use vstd::string::group_string_axioms;

/// Non-secret settings.
pub struct Config {
    /// Must be loopback: the only way in from outside is the tunnel.
    pub listen: SocketAddr,
    /// Exact browser origin, e.g. `https://desk.example.com`. Checked on every POST and WebSocket.
    pub public_origin: String,
    pub state_dir: String,
    pub web_dir: String,
    /// H.264 encoder.
    pub encoder: EncoderChoice,
    /// Local UDP port for media; 0 means any.
    pub udp_port: u16,
    pub access: AccessConfig,
    pub turn: Option<TurnConfig>,
}

/// How Cloudflare Access is set up.
pub struct AccessConfig {
    /// Zero Trust team domain, e.g. `yourteam.cloudflareaccess.com`.
    pub team_domain: String,
    /// "Application Audience (AUD) Tag" of the Access application.
    pub aud: String,
    /// The only identity allowed through.
    pub allowed_email: String,
}

/// Cloudflare Realtime TURN key (optional; used by the browser when a direct path fails).
pub struct TurnConfig {
    pub key_id: String,
    pub api_token: String,
}

/// Secrets of the one user.
pub struct AuthState {
    pub password_hash: String,
    pub totp_secret: String,
    /// Last accepted TOTP time step; codes at or before it are rejected (replay protection).
    pub last_totp_step: u64,
}

/// Why settings are refused.
#[derive(Clone, Copy, Debug, PartialEq, Eq, Structural)]
pub enum ConfigError {
    /// `listen` can be reached from outside the machine.
    NotLoopback,
    /// `public_origin` is more, or less, than an https origin.
    BadOrigin,
}

/// `s` without the `c`s at its end.
pub open spec fn without_trailing(s: Seq<char>, c: char) -> Seq<char>
    decreases s.len(),
{
    if s.len() > 0 && s.last() == c {
        without_trailing(s.drop_last(), c)
    } else {
        s
    }
}

/// `s` without the copies of `p` at its start.
pub open spec fn without_leading(s: Seq<char>, p: Seq<char>) -> Seq<char>
    decreases s.len(),
{
    if p.len() > 0 && begins_with(s, p) {
        without_leading(s.skip(p.len() as int), p)
    } else {
        s
    }
}

/// How often `c` occurs in `s`.
pub open spec fn occurrences(s: Seq<char>, c: char) -> nat
    decreases s.len(),
{
    if s.len() == 0 {
        0
    } else {
        occurrences(s.drop_last(), c) + if s.last() == c {
            1nat
        } else {
            0nat
        }
    }
}

/// Whether `s` is a bare https origin: a scheme and a host, with nothing after the host but
/// slashes.
pub open spec fn bare_origin(s: Seq<char>) -> bool {
    begins_with(s, "https://"@) && occurrences(without_trailing(s, '/'), '/') == 2
}

/// The host part of an origin.
pub open spec fn host_of(s: Seq<char>) -> Seq<char> {
    without_trailing(without_leading(s, "https://"@), '/')
}

/// The end of `chars[from..]` once the `c`s at its end are left out.
fn trailing_start(chars: &Vec<char>, from: usize, c: char) -> (end: usize)
    requires
        from <= chars@.len(),
    ensures
        from <= end <= chars@.len(),
        chars@.subrange(from as int, end as int) == without_trailing(chars@.skip(from as int), c),
{
    let mut end: usize = chars.len();
    assert(chars@.skip(from as int) =~= chars@.subrange(from as int, end as int));
    while end > from && chars[end - 1] == c
        invariant
            from <= end <= chars@.len(),
            without_trailing(chars@.subrange(from as int, end as int), c) == without_trailing(
                chars@.skip(from as int),
                c,
            ),
        decreases end,
    {
        assert(chars@.subrange(from as int, end as int).drop_last() =~= chars@.subrange(
            from as int,
            end - 1,
        ));
        end -= 1;
    }
    end
}

/// How often `c` occurs in `chars[..end]`.
fn count_in(chars: &Vec<char>, end: usize, c: char) -> (n: usize)
    requires
        end <= chars@.len(),
    ensures
        n == occurrences(chars@.take(end as int), c),
{
    let mut n: usize = 0;
    let mut i: usize = 0;
    while i < end
        invariant
            n <= i <= end <= chars@.len(),
            n == occurrences(chars@.take(i as int), c),
        decreases end - i,
    {
        assert(chars@.take(i + 1).drop_last() =~= chars@.take(i as int));
        if chars[i] == c {
            n += 1;
        }
        i += 1;
    }
    n
}

impl Config {
    /// Accepts settings only if the agent listens on loopback and the origin is a bare https
    /// origin.
    pub fn validate(&self) -> (r: Result<(), ConfigError>)
        ensures
            r is Ok <==> crate::net::loopback(self.listen.ip@) && bare_origin(self.public_origin@),
            r == Err::<(), ConfigError>(ConfigError::NotLoopback) <==> !crate::net::loopback(
                self.listen.ip@,
            ),
            r == Err::<(), ConfigError>(ConfigError::BadOrigin) <==> crate::net::loopback(
                self.listen.ip@,
            ) && !bare_origin(self.public_origin@),
    {
        if !self.listen.ip.is_loopback() {
            return Err(ConfigError::NotLoopback);
        }
        if !starts_with(&self.public_origin, "https://") {
            return Err(ConfigError::BadOrigin);
        }
        let chars = chars_of(&self.public_origin);
        assert(chars@.skip(0) =~= chars@);
        let end = trailing_start(&chars, 0, '/');
        assert(chars@.subrange(0, end as int) =~= chars@.take(end as int));
        if count_in(&chars, end, '/') != 2 {
            return Err(ConfigError::BadOrigin);
        }
        Ok(())
    }

    /// Host part of `public_origin`, e.g. `desk.example.com`.
    pub fn public_host(&self) -> (host: String)
        ensures
            host@ == host_of(self.public_origin@),
    {
        let chars = chars_of(&self.public_origin);
        let scheme = chars_of("https://");
        proof {
            reveal_strlit("https://");
        }
        let mut from: usize = 0;
        assert(chars@.skip(0) =~= chars@);
        assert(chars@.subrange(0, chars@.len() as int) =~= chars@);
        while slice_begins_with(&chars, from, chars.len(), &scheme)
            invariant
                from <= chars@.len(),
                scheme@ == "https://"@,
                scheme@.len() == 8,
                without_leading(chars@.skip(from as int), scheme@) == without_leading(
                    chars@,
                    scheme@,
                ),
            decreases chars@.len() - from,
        {
            assert(chars@.skip(from as int) =~= chars@.subrange(from as int, chars@.len() as int));
            assert(chars@.skip(from as int).skip(8) =~= chars@.skip(from + 8));
            from += 8;
        }
        assert(chars@.skip(from as int) =~= chars@.subrange(from as int, chars@.len() as int));
        let end = trailing_start(&chars, from, '/');
        text_of(&chars, from, end)
    }
}

impl ConfigError {
    /// What to tell the user.
    pub fn message(&self) -> (m: &'static str)
        ensures
            m@ == match self {
                ConfigError::NotLoopback =>
                    "listen must be a loopback address; expose it through cloudflared instead"@,
                ConfigError::BadOrigin =>
                    "public_origin must be a bare https:// origin, e.g. https://desk.example.com"@,
            },
    {
        match self {
            ConfigError::NotLoopback =>
                "listen must be a loopback address; expose it through cloudflared instead",
            ConfigError::BadOrigin =>
                "public_origin must be a bare https:// origin, e.g. https://desk.example.com",
        }
    }
}

/// Where the agent listens unless told otherwise: 127.0.0.1:8750.
pub fn default_listen() -> (addr: SocketAddr)
    ensures
        addr@ == endpoint(seq![127u8, 0, 0, 1], 8750),
        crate::net::loopback(addr.ip@),
{
    let o: [u8; 4] = [127, 0, 0, 1];
    assert(o@ =~= seq![127u8, 0, 0, 1]);
    SocketAddr::new(IpAddr::V4(o), 8750)
}

/// Where the private state is kept unless told otherwise.
pub fn default_state_dir() -> (dir: String)
    ensures
        dir@ == "state"@,
{
    "state".to_owned()
}

/// Where the web interface lies unless told otherwise.
pub fn default_web_dir() -> (dir: String)
    ensures
        dir@ == "../web/dist"@,
{
    "../web/dist".to_owned()
}

/// The name under which a state file is first written, before it takes its own.
pub fn temp_name(name: &str) -> (tmp: String)
    ensures
        tmp@ == "."@ + name@ + ".tmp"@,
{
    join3(".", name, ".tmp")
}

/// One remembered portal session.
struct Restore {
    monitor: String,
    token: String,
}

spec fn restore_at(tokens: Seq<Restore>, monitor: Seq<char>, i: int) -> bool {
    0 <= i < tokens.len() && tokens[i].monitor@ == monitor
}

spec fn unique_monitors(tokens: Seq<Restore>) -> bool {
    forall|i: int, j: int| 0 <= i < j < tokens.len() ==> tokens[i].monitor@ != tokens[j].monitor@
}

/// Portal restore tokens, one per monitor.
pub struct PortalState {
    tokens: Vec<Restore>,
}

impl View for PortalState {
    type V = Map<Seq<char>, Seq<char>>;

    /// Monitor name → portal restore token.
    closed spec fn view(&self) -> Map<Seq<char>, Seq<char>> {
        Map::new(
            |m: Seq<char>| exists|i: int| restore_at(self.tokens@, m, i),
            |m: Seq<char>| self.tokens@[choose|i: int| restore_at(self.tokens@, m, i)].token@,
        )
    }
}

impl PortalState {
    /// No monitor has two tokens.
    pub closed spec fn wf(&self) -> bool {
        unique_monitors(self.tokens@)
    }

    proof fn entry_in_view(&self, i: int)
        requires
            self.wf(),
            0 <= i < self.tokens@.len(),
        ensures
            self@.dom().contains(self.tokens@[i].monitor@),
            self@[self.tokens@[i].monitor@] == self.tokens@[i].token@,
    {
        let m = self.tokens@[i].monitor@;
        assert(restore_at(self.tokens@, m, i));
        let j = choose|j: int| restore_at(self.tokens@, m, j);
        assert(restore_at(self.tokens@, m, j));
        if j < i {
            assert(self.tokens@[j].monitor@ != self.tokens@[i].monitor@);
        } else if i < j {
            assert(self.tokens@[i].monitor@ != self.tokens@[j].monitor@);
        }
    }

    fn find(&self, monitor: &str) -> (r: Option<usize>)
        requires
            self.wf(),
        ensures
            match r {
                Some(i) => restore_at(self.tokens@, monitor@, i as int),
                None => !self@.dom().contains(monitor@),
            },
    {
        let mut i: usize = 0;
        while i < self.tokens.len()
            invariant
                i <= self.tokens@.len(),
                forall|j: int| 0 <= j < i ==> !restore_at(self.tokens@, monitor@, j),
            decreases self.tokens@.len() - i,
        {
            if same(&self.tokens[i].monitor, monitor) {
                return Some(i);
            }
            i += 1;
        }
        None
    }

    /// The token that restores the capture of `monitor`, if one is known.
    pub fn token(&self, monitor: &str) -> (r: Option<String>)
        requires
            self.wf(),
        ensures
            match r {
                Some(t) => self@.dom().contains(monitor@) && self@[monitor@] == t@,
                None => !self@.dom().contains(monitor@),
            },
    {
        match self.find(monitor) {
            Some(i) => {
                proof {
                    self.entry_in_view(i as int);
                }
                Some(self.tokens[i].token.clone())
            },
            None => None,
        }
    }

    /// Remembers `token` for `monitor`, in place of any token it had.
    pub fn store(&mut self, monitor: &str, token: &str)
        requires
            old(self).wf(),
        ensures
            final(self).wf(),
            final(self)@ == old(self)@.insert(monitor@, token@),
    {
        let entry = Restore { monitor: monitor.to_owned(), token: token.to_owned() };
        let ghost before = *self;
        let ghost mut place: int = 0;
        match self.find(monitor) {
            Some(i) => {
                proof {
                    place = i as int;
                }
                self.tokens.set(i, entry);
                proof {
                    assert forall|a: int, b: int| 0 <= a < b < self.tokens@.len() implies
                        self.tokens@[a].monitor@ != self.tokens@[b].monitor@ by {
                        assert(before.tokens@[a].monitor@ != before.tokens@[b].monitor@);
                    }
                }
            },
            None => {
                proof {
                    place = self.tokens@.len() as int;
                }
                self.tokens.push(entry);
                proof {
                    assert forall|a: int, b: int| 0 <= a < b < self.tokens@.len() implies
                        self.tokens@[a].monitor@ != self.tokens@[b].monitor@ by {
                        if b < before.tokens@.len() {
                            assert(before.tokens@[a].monitor@ != before.tokens@[b].monitor@);
                        } else {
                            before.entry_in_view(a);
                        }
                    }
                }
            },
        }
        proof {
            let after = *self;
            let want = before@.insert(monitor@, token@);
            assert forall|m: Seq<char>| after@.dom().contains(m) == want.dom().contains(m) by {
                if after@.dom().contains(m) {
                    let j = choose|j: int| restore_at(after.tokens@, m, j);
                    if j != place {
                        before.entry_in_view(j);
                    }
                }
                if want.dom().contains(m) {
                    if m == monitor@ {
                        assert(restore_at(after.tokens@, m, place));
                    } else {
                        let j = choose|j: int| restore_at(before.tokens@, m, j);
                        assert(restore_at(after.tokens@, m, j));
                    }
                }
            }
            assert forall|m: Seq<char>| after@.dom().contains(m) implies after@[m] == want[m] by {
                let j = choose|j: int| restore_at(after.tokens@, m, j);
                after.entry_in_view(j);
                if j != place {
                    before.entry_in_view(j);
                    after.entry_in_view(place);
                    if j < place {
                        assert(after.tokens@[j].monitor@ != after.tokens@[place].monitor@);
                    } else {
                        assert(after.tokens@[place].monitor@ != after.tokens@[j].monitor@);
                    }
                }
            }
            assert(after@ =~= want);
        }
    }

    /// How many monitors have a token.
    pub fn len(&self) -> (n: usize)
        ensures
            n == self.entries().len(),
    {
        self.tokens.len()
    }

    /// The monitors and their tokens, in the order in which they were first stored.
    pub closed spec fn entries(&self) -> Seq<(Seq<char>, Seq<char>)> {
        Seq::new(self.tokens@.len(), |i: int| (self.tokens@[i].monitor@, self.tokens@[i].token@))
    }

    /// The `i`th monitor and its token.
    pub fn entry(&self, i: usize) -> (r: (String, String))
        requires
            self.wf(),
            i < self.entries().len(),
        ensures
            (r.0@, r.1@) == self.entries()[i as int],
            self@.dom().contains(r.0@),
            self@[r.0@] == r.1@,
    {
        proof {
            self.entry_in_view(i as int);
        }
        (self.tokens[i].monitor.clone(), self.tokens[i].token.clone())
    }
}

impl Default for PortalState {
    fn default() -> (s: PortalState)
        ensures
            s.wf(),
            s@ == Map::<Seq<char>, Seq<char>>::empty(),
            s.entries().len() == 0,
    {
        let s = PortalState { tokens: Vec::new() };
        assert(s@ =~= Map::<Seq<char>, Seq<char>>::empty());
        s
    }
}

proof fn trailing_split(s: Seq<char>, c: char)
    ensures
        without_trailing(s, c).len() <= s.len(),
        without_trailing(s, c) == s.take(without_trailing(s, c).len() as int),
        forall|i: int| without_trailing(s, c).len() <= i < s.len() ==> s[i] == c,
        without_trailing(s, c).len() > 0 ==> without_trailing(s, c).last() != c,
    decreases s.len(),
{
    if s.len() > 0 && s.last() == c {
        trailing_split(s.drop_last(), c);
        let t = without_trailing(s, c);
        assert(t =~= s.take(t.len() as int));
        assert forall|i: int| t.len() <= i < s.len() implies s[i] == c by {
            if i < s.len() - 1 {
                assert(s[i] == s.drop_last()[i]);
            }
        }
    } else {
        assert(s.take(s.len() as int) =~= s);
    }
}

proof fn occurrences_split(a: Seq<char>, b: Seq<char>, c: char)
    ensures
        occurrences(a + b, c) == occurrences(a, c) + occurrences(b, c),
    decreases b.len(),
{
    if b.len() == 0 {
        assert(a + b =~= a);
    } else {
        occurrences_split(a, b.drop_last(), c);
        assert((a + b).drop_last() =~= a + b.drop_last());
    }
}

proof fn occurrences_zero(s: Seq<char>, c: char)
    requires
        occurrences(s, c) == 0,
    ensures
        forall|i: int| 0 <= i < s.len() ==> s[i] != c,
    decreases s.len(),
{
    if s.len() > 0 {
        occurrences_zero(s.drop_last(), c);
        assert forall|i: int| 0 <= i < s.len() implies s[i] != c by {
            if i < s.len() - 1 {
                assert(s[i] == s.drop_last()[i]);
            }
        }
    }
}

/// For an accepted origin the host is what stands between the scheme and the slashes at the end:
/// it is not empty, holds no slash, and the origin is put together from the three.
///
/// Left out is an origin whose host is itself written as a scheme, such as `https://https://`.
pub proof fn host_is_the_middle(s: Seq<char>, slashes: nat)
    requires
        bare_origin(s),
        !begins_with(s.skip(8), "https://"@),
        slashes == s.len() - without_trailing(s, '/').len(),
    ensures
        host_of(s).len() > 0,
        forall|i: int| 0 <= i < host_of(s).len() ==> host_of(s)[i] != '/',
        s == "https://"@ + host_of(s) + Seq::new(slashes, |i: int| '/'),
{
    reveal_strlit("https://");
    let p = "https://"@;
    let t = without_trailing(s, '/');
    trailing_split(s, '/');
    let rest = s.skip(8);
    assert(without_leading(rest, p) == rest);
    assert(without_leading(s, p) == rest);
    let h = without_trailing(rest, '/');
    trailing_split(rest, '/');
    assert(s.take(8) == p);
    assert(s[6] == p[6] && s[7] == p[7]);
    if t.len() <= 8 {
        // At most the scheme is left, and it cannot end in a slash: fewer than two occur.
        if t.len() == 8 {
            assert(t.last() == s[7]);
        }
        if t.len() == 7 {
            assert(t.last() == s[6]);
        }
        assert(t.len() <= 6);
        no_slash_in_front(t, p);
        assert(false);
    }
    assert(t =~= p + t.skip(8)) by {
        assert forall|i: int| 0 <= i < 8 implies t[i] == p[i] by {
            assert(t[i] == s[i] && s.take(8)[i] == s[i]);
        }
    }
    assert(h =~= t.skip(8)) by {
        if h.len() < t.len() - 8 {
            let last = t.len() - 1;
            assert(t.last() == s[last] && s[last] == rest[last - 8]);
            assert(rest[last - 8] == '/');
        }
        if h.len() > t.len() - 8 {
            let last = h.len() - 1;
            assert(h.last() == rest[last] && rest[last] == s[last + 8]);
        }
    }
    occurrences_split(p, h, '/');
    scheme_slashes();
    occurrences_zero(h, '/');
    assert(s =~= p + h + Seq::new(slashes, |i: int| '/'));
}

proof fn scheme_slashes()
    ensures
        occurrences("https://"@, '/') == 2,
{
    reveal_strlit("https://");
    let p = "https://"@;
    let six = p.take(6);
    no_slash_in_front(six, p);
    assert(p.drop_last().drop_last() =~= six);
    assert(occurrences(p.drop_last(), '/') == 1);
}

proof fn no_slash_in_front(t: Seq<char>, p: Seq<char>)
    requires
        p == "https://"@,
        t.len() <= 6,
        forall|i: int| 0 <= i < t.len() ==> t[i] == p[i],
    ensures
        occurrences(t, '/') == 0,
    decreases t.len(),
{
    reveal_strlit("https://");
    if t.len() > 0 {
        no_slash_in_front(t.drop_last(), p);
    }
}

proof fn trailing_goes(s: Seq<char>, slashes: nat, c: char)
    requires
        s.len() > 0 ==> s.last() != c,
    ensures
        without_trailing(s + Seq::new(slashes, |i: int| c), c) == s,
    decreases slashes,
{
    let whole = s + Seq::new(slashes, |i: int| c);
    if slashes == 0 {
        assert(whole =~= s);
    } else {
        let fewer = (slashes - 1) as nat;
        assert(whole.last() == c);
        assert(whole.drop_last() =~= s + Seq::new(fewer, |i: int| c));
        trailing_goes(s, fewer, c);
    }
}

proof fn none_occur(s: Seq<char>, c: char)
    requires
        forall|i: int| 0 <= i < s.len() ==> s[i] != c,
    ensures
        occurrences(s, c) == 0,
    decreases s.len(),
{
    if s.len() > 0 {
        none_occur(s.drop_last(), c);
    }
}

/// Every host makes an origin: the scheme, any host without a slash and any number of slashes are
/// accepted, and the host comes back. Only a host that reads as a scheme once slashes follow it does
/// not.
pub proof fn hosts_make_origins(host: Seq<char>, slashes: nat)
    requires
        host.len() > 0,
        forall|i: int| 0 <= i < host.len() ==> host[i] != '/',
    ensures
        bare_origin("https://"@ + host + Seq::new(slashes, |i: int| '/')),
        host != "https:"@ ==> host_of("https://"@ + host + Seq::new(slashes, |i: int| '/')) == host,
{
    let p = "https://"@;
    reveal_strlit("https://");
    reveal_strlit("https:");
    let tail = Seq::new(slashes, |i: int| '/');
    let s = p + host + tail;
    assert(s.take(8) =~= p);
    assert((p + host).last() == host.last());
    trailing_goes(p + host, slashes, '/');
    occurrences_split(p, host, '/');
    none_occur(host, '/');
    scheme_slashes();
    if host != "https:"@ {
        let rest = s.skip(8);
        assert(rest =~= host + tail);
        if begins_with(rest, p) {
            assert forall|i: int| 0 <= i < 8 implies rest[i] == p[i] by {
                assert(rest.take(8)[i] == rest[i]);
            }
            if host.len() < 6 {
                assert(rest[host.len() as int] == '/');
                assert(p[host.len() as int] != '/');
            } else if host.len() > 6 {
                assert(rest[6] == host[6]);
            } else {
                assert forall|i: int| 0 <= i < 6 implies host[i] == "https:"@[i] by {
                    assert(rest[i] == host[i]);
                    assert(rest[i] == p[i]);
                }
                assert(host =~= "https:"@);
            }
            assert(false);
        }
        reveal_with_fuel(without_leading, 2);
        assert(without_leading(s, p) == rest);
        trailing_goes(host, slashes, '/');
    }
}

/// An origin with a path behind the host, or without a host, or under another scheme, is not accepted.
pub proof fn nothing_else_is_an_origin(host: Seq<char>, path: Seq<char>, slashes: nat, s: Seq<char>)
    requires
        path.len() > 0,
        path.last() != '/',
    ensures
        !bare_origin("https://"@ + host + "/"@ + path + Seq::new(slashes, |i: int| '/')),
        !bare_origin("https://"@ + Seq::new(slashes, |i: int| '/')),
        !begins_with(s, "https://"@) ==> !bare_origin(s),
{
    let p = "https://"@;
    reveal_strlit("https://");
    reveal_strlit("https:");
    reveal_strlit("/");
    let front = p + host + "/"@ + path;
    assert(front.last() == path.last());
    trailing_goes(front, slashes, '/');
    occurrences_split(p + host + "/"@, path, '/');
    occurrences_split(p + host, "/"@, '/');
    occurrences_split(p, host, '/');
    scheme_slashes();
    reveal_with_fuel(occurrences, 2);
    assert(occurrences("/"@, '/') == 1);
    let scheme = "https:"@;
    assert(p + Seq::new(slashes, |i: int| '/') =~= scheme + Seq::new(slashes + 2, |i: int| '/'));
    trailing_goes(scheme, slashes + 2, '/');
    none_occur(scheme, '/');
}

} // verus!
