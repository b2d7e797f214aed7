//! Credentials for signing, and when to fetch new ones.

use vstd::prelude::*;

verus! {

/// How long before its expiration an identity is replaced, in nanoseconds: ten
/// minutes.
pub const EXPIRATION_SLACK: i128 = 600_000_000_000;

/// Nanoseconds per second.
pub const NANOS_PER_SEC: i128 = 1_000_000_000;

/// A point in time, in nanoseconds since the Unix epoch.
#[derive(Clone, Copy, Debug, PartialEq, Eq, Structural)]
pub struct Timestamp {
    pub nanos: i128,
}

/// Whether a point in time can be told with 64 bits of signed seconds.
pub open spec fn representable(nanos: int) -> bool {
    i64::MIN * NANOS_PER_SEC <= nanos < (i64::MAX + 1) * NANOS_PER_SEC
}

impl Timestamp {
    /// The time `secs` seconds and `nanos` nanoseconds after the epoch.
    pub fn since_epoch(secs: u64, nanos: u32) -> (t: Timestamp)
        ensures
            t.nanos == secs * 1_000_000_000 + nanos,
    {
        Timestamp { nanos: secs as i128 * NANOS_PER_SEC + nanos as i128 }
    }

    /// The time `secs` seconds and `nanos` nanoseconds before the epoch.
    pub fn before_epoch(secs: u64, nanos: u32) -> (t: Timestamp)
        ensures
            t.nanos == -(secs * 1_000_000_000 + nanos),
    {
        Timestamp { nanos: 0 - (secs as i128 * NANOS_PER_SEC + nanos as i128) }
    }
}

/// `SystemTime::now`, as its distance from the Unix epoch in seconds and
/// nanoseconds: `Ok` where the clock stands at or after the epoch, `Err` where
/// it stands before. The nanoseconds are less than a second; what the clock
/// reads is left open.
#[verifier::external_body]
fn clock_reading() -> (r: Result<(u64, u32), (u64, u32)>)
    ensures
        match r {
            Ok(after) => after.1 < 1_000_000_000,
            Err(before) => before.1 < 1_000_000_000,
        },
{
    match std::time::SystemTime::now().duration_since(std::time::UNIX_EPOCH) {
        Ok(after) => Ok((after.as_secs(), after.subsec_nanos())),
        Err(e) => Err((e.duration().as_secs(), e.duration().subsec_nanos())),
    }
}

/// Whether `reading` is what `SystemTime::now` may have read, as its distance
/// from the Unix epoch.
pub closed spec fn clock_reads(reading: Result<(u64, u32), (u64, u32)>) -> bool {
    call_ensures(clock_reading, (), reading)
}

/// The nanoseconds since the Unix epoch at a reading of the clock: `Ok` is a
/// distance in seconds and nanoseconds after the epoch, `Err` one before it.
pub open spec fn nanos_at(reading: Result<(u64, u32), (u64, u32)>) -> int {
    match reading {
        Ok((secs, nanos)) => secs * NANOS_PER_SEC + nanos,
        Err((secs, nanos)) => -(secs * NANOS_PER_SEC + nanos),
    }
}

/// Whether `t` is the time of a reading of the clock.
pub open spec fn told_by_clock(t: Timestamp) -> bool {
    exists|reading: Result<(u64, u32), (u64, u32)>| #[trigger]
        clock_reads(reading) && t.nanos == nanos_at(reading)
}

/// The time of a reading of the clock.
pub fn time_of_reading(reading: Result<(u64, u32), (u64, u32)>) -> (t: Timestamp)
    ensures
        t.nanos == nanos_at(reading),
        match reading {
            Ok((secs, nanos)) => t.nanos == secs * 1_000_000_000 + nanos,
            Err((secs, nanos)) => t.nanos == -(secs * 1_000_000_000 + nanos),
        },
{
    match reading {
        Ok((secs, nanos)) => Timestamp::since_epoch(secs, nanos),
        Err((secs, nanos)) => Timestamp::before_epoch(secs, nanos),
    }
}

/// The clock of this machine.
#[derive(Clone, Copy, Debug)]
pub struct SystemTimeSource;

impl SystemTimeSource {
    /// The time that the clock reads.
    pub fn now(&self) -> (t: Timestamp)
        ensures
            told_by_clock(t),
            -(u64::MAX + 1) * NANOS_PER_SEC < t.nanos < (u64::MAX + 1) * NANOS_PER_SEC,
    {
        let reading: Result<(u64, u32), (u64, u32)> = clock_reading();
        assert(clock_reads(reading));
        time_of_reading(reading)
    }
}

/// An access key, as a provider hands it out.
pub struct Credentials {
    pub access_key_id: String,
    pub secret_access_key: String,
    pub session_token: Option<String>,
    /// When the key stops to be valid, if ever.
    pub expiry: Option<Timestamp>,
    pub provider_name: String,
}

/// Credentials that are given in the configuration: they carry no session token
/// and never expire.
pub fn static_credentials(access_key_id: &str, access_key_secret: &str) -> (c: Credentials)
    ensures
        is_static_credentials(c, access_key_id@, access_key_secret@),
        c.access_key_id@ == access_key_id@,
        c.secret_access_key@ == access_key_secret@,
        c.session_token is None,
        c.expiry is None,
        c.provider_name@ == "static"@,
{
    Credentials {
        access_key_id: access_key_id.to_owned(),
        secret_access_key: access_key_secret.to_owned(),
        session_token: None,
        expiry: None,
        provider_name: "static".to_owned(),
    }
}

/// `c` is the key given in the configuration.
pub open spec fn is_static_credentials(c: Credentials, id: Seq<char>, secret: Seq<char>) -> bool {
    &&& c.access_key_id@ == id
    &&& c.secret_access_key@ == secret
    &&& c.session_token is None
    &&& c.expiry is None
    &&& c.provider_name@ == "static"@
}

/// Who signs, and until when the credentials are good.
pub struct Identity {
    pub credentials: Credentials,
    pub expiration: Option<Timestamp>,
}

/// The identity that `credentials` stand for.
pub open spec fn identity_of(credentials: Credentials) -> Identity {
    Identity { credentials, expiration: credentials.expiry }
}

impl Identity {
    /// The identity that `credentials` stand for.
    pub fn new(credentials: Credentials) -> (r: Identity)
        ensures
            r == identity_of(credentials),
            r.credentials == credentials,
            r.expiration == credentials.expiry,
    {
        let expiration: Option<Timestamp> = credentials.expiry;
        Identity { credentials, expiration }
    }

    /// Until when the credentials are good, if they expire.
    pub fn expiration(&self) -> (r: Option<Timestamp>)
        ensures
            r == self.expiration,
    {
        self.expiration
    }
}

/// Whether an identity is to be replaced at time `now`: it expires, and not
/// more than the slack is left.
pub open spec fn refresh_due(expiration: Option<Timestamp>, now: Timestamp) -> bool {
    expiration matches Some(expiry) && now.nanos >= expiry.nanos - EXPIRATION_SLACK
}

/// The start of the slack is a time that a clock can tell.
pub open spec fn slack_in_range(expiration: Option<Timestamp>) -> bool {
    expiration matches Some(expiry) ==> representable(expiry.nanos - EXPIRATION_SLACK)
}

/// An identity that is replaced when it is about to expire.
pub struct RefreshingIdentity {
    pub identity: Identity,
}

/// How an identity gets from `before` to `after` at time `now`: it is kept, or
/// `provide` is asked for credentials, and the identity is replaced by theirs if
/// it has some. `r` is the error of `provide`, if it came to that.
pub open spec fn refreshes<E, P: FnOnce() -> Result<Credentials, E>>(
    before: Identity,
    after: Identity,
    now: Timestamp,
    provide: P,
    r: Result<(), E>,
) -> bool {
    if refresh_due(before.expiration, now) {
        exists|fetched: Result<Credentials, E>| #[trigger]
            provide.ensures((), fetched) && match fetched {
                Ok(credentials) => after == identity_of(credentials) && r == Ok::<(), E>(()),
                Err(e) => after == before && r == Err::<(), E>(e),
            }
    } else {
        after == before && r == Ok::<(), E>(())
    }
}

impl RefreshingIdentity {
    /// The identity of the credentials that `provide` hands out.
    pub fn new<E, P: FnOnce() -> Result<Credentials, E>>(provide: P) -> (r: Result<
        RefreshingIdentity,
        E,
    >)
        requires
            provide.requires(()),
        ensures
            exists|fetched: Result<Credentials, E>| #[trigger]
                provide.ensures((), fetched) && match fetched {
                    Ok(credentials) => r matches Ok(this) && this.identity == identity_of(
                        credentials,
                    ),
                    Err(e) => r == Err::<RefreshingIdentity, E>(e),
                },
            match r {
                Ok(this) => provide.ensures((), Ok::<Credentials, E>(this.identity.credentials))
                    && this.identity.expiration == this.identity.credentials.expiry,
                Err(e) => provide.ensures((), Err::<Credentials, E>(e)),
            },
    {
        match provide() {
            Ok(credentials) => Ok(RefreshingIdentity { identity: Identity::new(credentials) }),
            Err(e) => Err(e),
        }
    }

    /// Whether the start of the slack is a time that a clock can tell.
    pub fn slack_fits(&self) -> (r: bool)
        ensures
            r == slack_in_range(self.identity.expiration),
    {
        match self.identity.expiration {
            Some(expiry) => {
                let first: i128 = i64::MIN as i128 * NANOS_PER_SEC;
                let end: i128 = (i64::MAX as i128 + 1) * NANOS_PER_SEC;
                first + EXPIRATION_SLACK <= expiry.nanos && expiry.nanos < end + EXPIRATION_SLACK
            },
            None => true,
        }
    }

    /// Whether the identity is to be replaced at time `now`.
    pub fn need_refresh(&self, now: Timestamp) -> (r: bool)
        requires
            slack_in_range(self.identity.expiration),
        ensures
            r == refresh_due(self.identity.expiration, now),
            match self.identity.expiration {
                Some(expiry) => r == (expiry.nanos - now.nanos <= 600 * 1_000_000_000),
                None => !r,
            },
    {
        match self.identity.expiration {
            Some(expiry) => now.nanos >= expiry.nanos - EXPIRATION_SLACK,
            None => false,
        }
    }

    /// Replaces the identity by that of `credentials`.
    pub fn install(&mut self, credentials: Credentials)
        ensures
            final(self).identity == identity_of(credentials),
            final(self).identity.credentials == credentials,
            final(self).identity.expiration == credentials.expiry,
    {
        self.identity = Identity::new(credentials);
    }

    /// Replaces the identity by that of the credentials that `provide` hands
    /// out, if it is to be replaced at time `now`. Otherwise `provide` is not
    /// called.
    pub fn refresh<E, P: FnOnce() -> Result<Credentials, E>>(
        &mut self,
        now: Timestamp,
        provide: P,
    ) -> (r: Result<(), E>)
        requires
            slack_in_range(old(self).identity.expiration),
            refresh_due(old(self).identity.expiration, now) ==> provide.requires(()),
        ensures
            refreshes(old(self).identity, final(self).identity, now, provide, r),
            if old(self).identity.expiration matches Some(expiry) && now.nanos >= expiry.nanos
                - 600_000_000_000 {
                match r {
                    Ok(()) => provide.ensures(
                        (),
                        Ok::<Credentials, E>(final(self).identity.credentials),
                    ) && final(self).identity.expiration
                        == final(self).identity.credentials.expiry,
                    Err(e) => provide.ensures((), Err::<Credentials, E>(e)) && final(self).identity
                        == old(self).identity,
                }
            } else {
                r is Ok && final(self).identity == old(self).identity
            },
    {
        if !self.need_refresh(now) {
            return Ok(());
        }
        match provide() {
            Ok(credentials) => {
                self.install(credentials);
                Ok(())
            },
            Err(e) => Err(e),
        }
    }

    /// Calls `f` with an identity that is good at time `now`: the present one,
    /// or where that is about to expire, a new one. Only then `provide` is called.
    /// Where there is no new one to be had, the present one stays and `f` is not
    /// called.
    pub fn with_identity<E, P, F>(&mut self, now: Timestamp, provide: P, f: F) -> (r: Result<
        (),
        E,
    >) where P: FnOnce() -> Result<Credentials, E>, F: FnOnce(&Identity) -> Result<(), E>
        requires
            slack_in_range(old(self).identity.expiration),
            refresh_due(old(self).identity.expiration, now) ==> provide.requires(()),
            forall|identity: &Identity|
                (if refresh_due(old(self).identity.expiration, now) {
                    exists|credentials: Credentials| #[trigger]
                        provide.ensures((), Ok::<Credentials, E>(credentials)) && *identity
                            == identity_of(credentials)
                } else {
                    *identity == old(self).identity
                }) ==> #[trigger] f.requires((identity,)),
        ensures
            exists|refreshed: Result<(), E>|
                {
                    &&& #[trigger] refreshes(
                        old(self).identity,
                        final(self).identity,
                        now,
                        provide,
                        refreshed,
                    )
                    &&& match refreshed {
                        Ok(()) => f.ensures((&final(self).identity,), r),
                        Err(e) => r == Err::<(), E>(e),
                    }
                },
            if old(self).identity.expiration matches Some(expiry) && now.nanos >= expiry.nanos
                - 600_000_000_000 {
                ||| {
                    &&& provide.ensures((), Ok::<Credentials, E>(final(self).identity.credentials))
                    &&& final(self).identity.expiration == final(self).identity.credentials.expiry
                    &&& f.ensures((&final(self).identity,), r)
                }
                ||| {
                    &&& final(self).identity == old(self).identity
                    &&& r matches Err(e) && provide.ensures((), Err::<Credentials, E>(e))
                }
            } else {
                &&& final(self).identity == old(self).identity
                &&& f.ensures((&final(self).identity,), r)
            },
    {
        let refreshed = self.refresh(now, provide);
        match refreshed {
            Ok(()) => f(&self.identity),
            Err(e) => Err(e),
        }
    }
}

/// Credentials that never expire are never replaced.
pub proof fn law_unexpiring_identity_is_kept(now: Timestamp)
    ensures
        !refresh_due(None, now),
{
}

/// Once an identity is due, it stays due until it is replaced.
pub proof fn law_due_stays_due(expiration: Option<Timestamp>, now: Timestamp, later: Timestamp)
    requires
        refresh_due(expiration, now),
        now.nanos <= later.nanos,
    ensures
        refresh_due(expiration, later),
{
}

/// An identity that is not due has more than the slack left.
pub proof fn law_identity_in_use_outlives_slack(expiry: Timestamp, now: Timestamp)
    requires
        !refresh_due(Some(expiry), now),
    ensures
        expiry.nanos > now.nanos + EXPIRATION_SLACK,
{
}

/// A new identity is kept until the slack before its expiration begins: until
/// then none is due, so that `refresh` does not need `provide` to be callable.
pub proof fn law_fresh_identity_is_kept<E, P: FnOnce() -> Result<Credentials, E>>(
    credentials: Credentials,
    now: Timestamp,
    provide: P,
    after: Identity,
    r: Result<(), E>,
)
    requires
        credentials.expiry matches Some(expiry) ==> now.nanos < expiry.nanos - EXPIRATION_SLACK,
        refreshes(identity_of(credentials), after, now, provide, r),
    ensures
        !refresh_due(identity_of(credentials).expiration, now),
        after == identity_of(credentials),
        r is Ok,
{
}

/// Where no new credentials are to be had, the identity stays as it was.
pub proof fn law_failed_refresh_keeps_identity<E, P: FnOnce() -> Result<Credentials, E>>(
    before: Identity,
    after: Identity,
    now: Timestamp,
    provide: P,
    e: E,
)
    requires
        refreshes(before, after, now, provide, Err::<(), E>(e)),
    ensures
        after == before,
        refresh_due(before.expiration, now),
{
}

/// The identity of credentials is theirs, and expires exactly when they do.
pub proof fn law_identity_expires_with_its_credentials(credentials: Credentials)
    ensures
        identity_of(credentials).credentials == credentials,
        identity_of(credentials).expiration == credentials.expiry,
{
}

/// Credentials with an expiry are due for replacement from ten minutes before it
/// on, and not earlier; others never are. A session token has no part in it.
pub proof fn law_credentials_are_due_ten_minutes_before_expiry(
    credentials: Credentials,
    now: Timestamp,
)
    ensures
        refresh_due(identity_of(credentials).expiration, now) <==> (
        credentials.expiry matches Some(expiry) && now.nanos + 10 * 60 * 1_000_000_000
            >= expiry.nanos),
{
}

/// Refreshing a due identity that succeeds leaves the credentials that `provide`
/// handed out, whole, with their own expiry; one that fails leaves the identity
/// and passes the failure of `provide` on.
pub proof fn law_due_identity_is_replaced<E, P: FnOnce() -> Result<Credentials, E>>(
    before: Identity,
    after: Identity,
    now: Timestamp,
    provide: P,
    r: Result<(), E>,
)
    requires
        before.expiration matches Some(expiry) && now.nanos >= expiry.nanos - 600_000_000_000,
        refreshes(before, after, now, provide, r),
    ensures
        match r {
            Ok(()) => provide.ensures((), Ok::<Credentials, E>(after.credentials))
                && after.expiration == after.credentials.expiry,
            Err(e) => provide.ensures((), Err::<Credentials, E>(e)) && after == before,
        },
{
}

/// An identity that does not expire, or has more than ten minutes left, is kept
/// as it is, and that cannot fail.
pub proof fn law_identity_not_due_is_kept<E, P: FnOnce() -> Result<Credentials, E>>(
    before: Identity,
    after: Identity,
    now: Timestamp,
    provide: P,
    r: Result<(), E>,
)
    requires
        before.expiration matches Some(expiry) ==> now.nanos < expiry.nanos - 600_000_000_000,
        refreshes(before, after, now, provide, r),
    ensures
        after == before,
        r is Ok,
{
}

/// The time of a reading of the clock is its distance from the epoch: that many
/// nanoseconds after it, or before it.
pub proof fn law_readings_count_from_the_epoch(secs: u64, nanos: u32)
    ensures
        nanos_at(Ok((secs, nanos))) == secs * 1_000_000_000 + nanos,
        nanos_at(Err((secs, nanos))) + secs * 1_000_000_000 + nanos == 0,
{
}

/// The slack is asked of expirations only, and of those that a clock of signed
/// 64-bit seconds can tell only that ten minutes earlier it can tell the time
/// too.
pub proof fn law_slack_fits_ordinary_expirations(expiry: Timestamp)
    ensures
        slack_in_range(None),
        -0x8000_0000_0000_0000 * 1_000_000_000 + 600_000_000_000 <= expiry.nanos
            < 0x8000_0000_0000_0000 * 1_000_000_000 ==> slack_in_range(Some(expiry)),
{
}

/// Credentials of the configuration hold the two halves of the key, each in its
/// place, and nothing that would end their use.
pub proof fn law_static_credentials_hold_the_key(
    c: Credentials,
    id: Seq<char>,
    secret: Seq<char>,
    now: Timestamp,
)
    requires
        is_static_credentials(c, id, secret),
    ensures
        c.access_key_id@ == id,
        c.secret_access_key@ == secret,
        c.session_token is None,
        !refresh_due(identity_of(c).expiration, now),
{
}

} // verus!
