//! The state of an S3 backend.

use vstd::prelude::*;
use vstd::string::StringExecFns;

use crate::identity::{
    identity_of, is_static_credentials, static_credentials, Credentials, RefreshingIdentity,
};
use crate::text::{join, joined, texts};

verus! {

/// Where requests go unless the configuration says otherwise.
pub const S3_DEFAULT_ENDPOINT: &'static str = "s3.amazonaws.com";

/// What the configuration says of an S3 backend.
pub struct S3Config {
    pub scheme: String,
    pub endpoint: String,
    pub region: String,
    pub bucket_name: String,
    pub object_prefix: String,
    pub access_key_id: String,
    pub access_key_secret: String,
    pub retry_limit: u8,
}

/// What signing and addressing requests needs.
pub struct S3State {
    pub region: String,
    pub scheme: String,
    pub object_prefix: String,
    pub endpoint: String,
    pub bucket_name: String,
    pub retry_limit: u8,
    pub identity: RefreshingIdentity,
}

/// Under which names the requests of a backend are counted.
pub struct MetricsLabel {
    pub id: String,
    pub backend: String,
}

/// A storage backend to access data stored in S3, over a connection `C`.
pub struct S3<C> {
    pub connection: C,
    pub state: S3State,
    pub metrics: Option<MetricsLabel>,
    pub id: Option<String>,
}

/// The part of a request's address from the path on.
pub open spec fn resource_of(
    bucket_name: Seq<char>,
    object_prefix: Seq<char>,
    obj_key: Seq<char>,
    query: Seq<Seq<char>>,
) -> Seq<char> {
    "/"@ + bucket_name + "/"@ + object_prefix + obj_key + query_of(query)
}

/// The query of a request: its parts joined by `&` behind a `?`, or nothing.
pub open spec fn query_of(query: Seq<Seq<char>>) -> Seq<char> {
    if query.len() == 0 {
        Seq::empty()
    } else {
        "?"@ + joined(query, "&"@)
    }
}

/// Both halves of an access key are configured.
pub open spec fn has_static_key(config: S3Config) -> bool {
    config.access_key_id@.len() > 0 && config.access_key_secret@.len() > 0
}

/// The endpoint that is used for a configured one.
pub open spec fn endpoint_of(configured: Seq<char>) -> Seq<char> {
    if configured.len() == 0 {
        S3_DEFAULT_ENDPOINT@
    } else {
        configured
    }
}

/// The state of a backend holds what its configuration says, but for the
/// identity.
pub open spec fn state_follows(state: S3State, config: S3Config) -> bool {
    &&& state.region@ == config.region@
    &&& state.scheme@ == config.scheme@
    &&& state.object_prefix@ == config.object_prefix@
    &&& state.endpoint@ == endpoint_of(config.endpoint@)
    &&& state.bucket_name@ == config.bucket_name@
    &&& state.retry_limit == config.retry_limit
}

/// A backend is named and counted under `id`, if it has one.
pub open spec fn named_after<C>(s3: S3<C>, id: Option<&str>) -> bool {
    match id {
        Some(i) => {
            &&& s3.id matches Some(name) && name@ == i@
            &&& s3.metrics matches Some(label) && label.id@ == i@ && label.backend@ == "oss"@
        },
        None => s3.id is None && s3.metrics is None,
    }
}

impl<C> S3<C> {
    /// A backend as `config` describes it.
    ///
    /// `connect` opens the connection. Where no access key is configured,
    /// `fetch` is then asked for credentials in the configured region; where one
    /// is, `fetch` is not called.
    pub fn new<E, K, F>(config: &S3Config, id: Option<&str>, connect: K, fetch: F) -> (r: Result<
        S3<C>,
        E,
    >) where K: FnOnce(&S3Config) -> Result<C, E>, F: FnOnce(&str) -> Result<Credentials, E>
        requires
            connect.requires((config,)),
            !has_static_key(*config) ==> forall|connection: C, region: &str|
                #![trigger connect.ensures((config,), Ok::<C, E>(connection)), fetch.requires((region,))]
                connect.ensures((config,), Ok::<C, E>(connection)) && region@ == config.region@
                    ==> fetch.requires((region,)),
        ensures
            exists|connected: Result<C, E>| #[trigger]
                connect.ensures((config,), connected) && match connected {
                    Err(e) => r == Err::<S3<C>, E>(e),
                    Ok(connection) => if has_static_key(*config) {
                        r matches Ok(s3) && s3.connection == connection && state_follows(
                            s3.state,
                            *config,
                        ) && named_after(s3, id) && is_static_credentials(
                            s3.state.identity.identity.credentials,
                            config.access_key_id@,
                            config.access_key_secret@,
                        ) && s3.state.identity.identity.expiration is None
                    } else {
                        exists|region: &str, fetched: Result<Credentials, E>|
                            {
                                &&& #[trigger] fetch.ensures((region,), fetched)
                                &&& region@ == config.region@
                                &&& match fetched {
                                    Err(e) => r == Err::<S3<C>, E>(e),
                                    Ok(credentials) => r matches Ok(s3) && s3.connection
                                        == connection && state_follows(s3.state, *config)
                                        && named_after(s3, id) && s3.state.identity.identity
                                        == identity_of(credentials),
                                }
                            }
                    },
                },
            r matches Ok(s3) ==> {
                &&& s3.state.scheme@ == config.scheme@
                &&& s3.state.region@ == config.region@
                &&& s3.state.bucket_name@ == config.bucket_name@
                &&& s3.state.object_prefix@ == config.object_prefix@
                &&& s3.state.retry_limit == config.retry_limit
                &&& s3.state.endpoint@ == if config.endpoint@.len() == 0 {
                    "s3.amazonaws.com"@
                } else {
                    config.endpoint@
                }
                &&& connect.ensures((config,), Ok::<C, E>(s3.connection))
                &&& match id {
                    Some(i) => {
                        &&& s3.id matches Some(name) && name@ == i@
                        &&& s3.metrics matches Some(label) && label.id@ == i@ && label.backend@
                            == "oss"@
                    },
                    None => s3.id is None && s3.metrics is None,
                }
                &&& s3.state.identity.identity.expiration
                    == s3.state.identity.identity.credentials.expiry
                &&& if config.access_key_id@.len() > 0 && config.access_key_secret@.len() > 0 {
                    let key = s3.state.identity.identity.credentials;
                    &&& key.access_key_id@ == config.access_key_id@
                    &&& key.secret_access_key@ == config.access_key_secret@
                    &&& key.session_token is None
                    &&& key.expiry is None
                    &&& key.provider_name@ == "static"@
                } else {
                    exists|region: &str| #[trigger]
                        fetch.ensures(
                            (region,),
                            Ok::<Credentials, E>(s3.state.identity.identity.credentials),
                        ) && region@ == config.region@
                }
            },
    {
        let connection: C = match connect(config) {
            Ok(connection) => connection,
            Err(e) => {
                return Err(e);
            },
        };
        let endpoint: String = if config.endpoint.as_str().is_empty() {
            S3_DEFAULT_ENDPOINT.to_owned()
        } else {
            config.endpoint.clone()
        };
        let credentials: Credentials = if !config.access_key_id.as_str().is_empty()
            && !config.access_key_secret.as_str().is_empty() {
            static_credentials(config.access_key_id.as_str(), config.access_key_secret.as_str())
        } else {
            match fetch(config.region.as_str()) {
                Ok(credentials) => credentials,
                Err(e) => {
                    return Err(e);
                },
            }
        };
        let identity = RefreshingIdentity {
            identity: crate::identity::Identity::new(credentials),
        };
        let state = S3State {
            region: config.region.clone(),
            scheme: config.scheme.clone(),
            object_prefix: config.object_prefix.clone(),
            endpoint,
            bucket_name: config.bucket_name.clone(),
            retry_limit: config.retry_limit,
            identity,
        };
        let metrics: Option<MetricsLabel> = match id {
            Some(i) => Some(MetricsLabel { id: i.to_owned(), backend: "oss".to_owned() }),
            None => None,
        };
        let name: Option<String> = match id {
            Some(i) => Some(i.to_owned()),
            None => None,
        };
        Ok(S3 { connection, state, metrics, id: name })
    }
}

impl S3State {
    /// The resource of an object and its full address.
    pub fn url(&self, obj_key: &str, query_str: &[&str]) -> (r: (String, String))
        ensures
            r.0@ == resource_of(
                self.bucket_name@,
                self.object_prefix@,
                obj_key@,
                texts(query_str@),
            ),
            r.1@ == self.scheme@ + "://"@ + self.endpoint@ + r.0@,
            ({
                let object = self.object_prefix@ + obj_key@;
                let (b, o) = (self.bucket_name@.len() as int, object.len() as int);
                &&& r.0@[0] == '/'
                &&& r.0@.subrange(1, 1 + b) == self.bucket_name@
                &&& r.0@[1 + b] == '/'
                &&& r.0@.subrange(2 + b, 2 + b + o) == object
                &&& query_str@.len() == 0 ==> r.0@.len() == 2 + b + o
                &&& query_str@.len() > 0 ==> r.0@[2 + b + o] == '?' && r.0@.skip(3 + b + o)
                    == joined(texts(query_str@), seq!['&'])
            }),
    {
        let mut resource: String = String::new();
        resource.append("/");
        resource.append(self.bucket_name.as_str());
        resource.append("/");
        resource.append(self.object_prefix.as_str());
        resource.append(obj_key);
        if query_str.len() > 0 {
            let query: String = join(query_str, "&");
            resource.append("?");
            resource.append(query.as_str());
        }
        assert(resource@ =~= resource_of(
            self.bucket_name@,
            self.object_prefix@,
            obj_key@,
            texts(query_str@),
        ));
        proof {
            law_resource_names_bucket_object_and_query(
                self.bucket_name@,
                self.object_prefix@,
                obj_key@,
                texts(query_str@),
            );
        }
        let mut url: String = String::new();
        url.append(self.scheme.as_str());
        url.append("://");
        url.append(self.endpoint.as_str());
        url.append(resource.as_str());
        assert(url@ =~= self.scheme@ + "://"@ + self.endpoint@ + resource@);
        (resource, url)
    }

    /// How often a request is tried again.
    pub fn retry_limit(&self) -> (r: u8)
        ensures
            r == self.retry_limit,
    {
        self.retry_limit
    }
}

/// Different objects of a backend have different resources, asked for with the
/// same query.
pub proof fn law_objects_have_their_own_resources(
    bucket_name: Seq<char>,
    object_prefix: Seq<char>,
    obj_key: Seq<char>,
    other_key: Seq<char>,
    query: Seq<Seq<char>>,
)
    requires
        resource_of(bucket_name, object_prefix, obj_key, query) == resource_of(
            bucket_name,
            object_prefix,
            other_key,
            query,
        ),
    ensures
        obj_key == other_key,
{
    let front = "/"@ + bucket_name + "/"@ + object_prefix;
    let back = query_of(query);
    let one = front + obj_key + back;
    let other = front + other_key + back;
    assert(one == other);
    assert(one.len() == front.len() + obj_key.len() + back.len());
    assert(other.len() == front.len() + other_key.len() + back.len());
    assert forall|i: int| 0 <= i < obj_key.len() implies obj_key[i] == other_key[i] by {
        assert(one[front.len() + i] == obj_key[i]);
        assert(other[front.len() + i] == other_key[i]);
    }
    assert(obj_key =~= other_key);
}

/// The bucket is the first segment of a resource, for every prefix. The prefix
/// and the key follow it as they are, and then the query: nothing where there is
/// none, or its parts behind a question mark with `&` between them.
pub proof fn law_resource_names_bucket_object_and_query(
    bucket_name: Seq<char>,
    object_prefix: Seq<char>,
    obj_key: Seq<char>,
    query: Seq<Seq<char>>,
)
    ensures
        ({
            let resource = resource_of(bucket_name, object_prefix, obj_key, query);
            let object = object_prefix + obj_key;
            let (b, o) = (bucket_name.len() as int, object.len() as int);
            &&& resource[0] == '/'
            &&& resource.subrange(1, 1 + b) == bucket_name
            &&& resource[1 + b] == '/'
            &&& resource.subrange(2 + b, 2 + b + o) == object
            &&& query.len() == 0 ==> resource.len() == 2 + b + o
            &&& query.len() > 0 ==> resource[2 + b + o] == '?' && resource.skip(3 + b + o)
                == joined(query, seq!['&'])
        }),
{
    reveal_strlit("/");
    reveal_strlit("?");
    reveal_strlit("&");
    assert("&"@ =~= seq!['&']);
    let resource = resource_of(bucket_name, object_prefix, obj_key, query);
    let object = object_prefix + obj_key;
    let (b, o) = (bucket_name.len() as int, object.len() as int);
    assert(resource.subrange(1, 1 + b) =~= bucket_name);
    assert(resource.subrange(2 + b, 2 + b + o) =~= object);
    if query.len() > 0 {
        assert(resource.skip(3 + b + o) =~= joined(query, seq!['&']));
    }
}

/// Buckets and prefixes tell resources apart: backends with different buckets
/// whose names hold no slash share no resource, whatever their prefixes, keys
/// and queries.
pub proof fn law_buckets_share_no_resource(
    bucket: Seq<char>,
    other: Seq<char>,
    prefix: Seq<char>,
    other_prefix: Seq<char>,
    key: Seq<char>,
    other_key: Seq<char>,
    query: Seq<Seq<char>>,
    other_query: Seq<Seq<char>>,
)
    requires
        !bucket.contains('/'),
        !other.contains('/'),
        resource_of(bucket, prefix, key, query) == resource_of(
            other,
            other_prefix,
            other_key,
            other_query,
        ),
    ensures
        bucket == other,
{
    law_resource_names_bucket_object_and_query(bucket, prefix, key, query);
    law_resource_names_bucket_object_and_query(other, other_prefix, other_key, other_query);
    let resource = resource_of(bucket, prefix, key, query);
    let (b, o) = (bucket.len() as int, other.len() as int);
    if b < o {
        assert(other[b] == resource.subrange(1, 1 + o)[b]);
    } else if o < b {
        assert(bucket[o] == resource.subrange(1, 1 + b)[o]);
    }
}

/// A backend has what its configuration says: the scheme, region, bucket, prefix
/// and retry limit as they are, and the endpoint unless that is empty, in which
/// case it is that of AWS.
pub proof fn law_new_backend_is_as_configured(state: S3State, config: S3Config)
    requires
        state_follows(state, config),
    ensures
        state.scheme@ == config.scheme@,
        state.region@ == config.region@,
        state.bucket_name@ == config.bucket_name@,
        state.object_prefix@ == config.object_prefix@,
        state.retry_limit == config.retry_limit,
        config.endpoint@.len() > 0 ==> state.endpoint@ == config.endpoint@,
        config.endpoint@.len() == 0 ==> state.endpoint@ == "s3.amazonaws.com"@,
{
}

/// The key of the configuration is used where both halves of it are there, and
/// not where one is missing.
pub proof fn law_static_key_needs_both_halves(config: S3Config)
    ensures
        has_static_key(config) <==> config.access_key_id@ != Seq::<char>::empty()
            && config.access_key_secret@ != Seq::<char>::empty(),
{
    assert(config.access_key_id@.len() == 0 ==> config.access_key_id@ =~= Seq::empty());
    assert(config.access_key_secret@.len() == 0 ==> config.access_key_secret@ =~= Seq::empty());
}

} // verus!
