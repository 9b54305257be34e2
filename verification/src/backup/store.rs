//! The S3 client that stores backups: object keys under the configured
//! prefix, and the client built from the backup settings. Uploads, downloads
//! and listings are network calls made by the caller through [`S3Client::bucket`].
use vstd::prelude::*;

use s3::error::S3Error as StoreFailure;

use crate::config::BackupConfig;
use crate::text::{chars_of, extend_chars, extend_str, string_of};

verus! {

#[verifier::external_type_specification]
#[verifier::external_body]
pub struct ExBucket(s3::bucket::Bucket);

#[verifier::external_type_specification]
#[verifier::external_body]
pub struct ExRegion(s3::region::Region);

#[verifier::external_type_specification]
#[verifier::external_body]
pub struct ExCredentials(s3::creds::Credentials);

#[verifier::external_type_specification]
#[verifier::external_body]
pub struct ExS3Failure(StoreFailure);

#[verifier::external_type_specification]
#[verifier::external_body]
pub struct ExCredentialsError(s3::creds::error::CredentialsError);

/// A summary of an object stored in S3.
#[derive(Clone, Debug)]
pub struct BackupEntry {
    pub key: String,
    pub size: u64,
    pub last_modified: String,
}

/// Error type for S3 operations.
#[derive(Debug)]
pub enum S3Error {
    S3(StoreFailure),
    Credentials(s3::creds::error::CredentialsError),
}

/// `s` without its trailing `/` characters (`str::trim_end_matches('/')`).
pub open spec fn trim_slashes(s: Seq<char>) -> Seq<char>
    decreases s.len(),
{
    if s.len() > 0 && s.last() == '/' {
        trim_slashes(s.drop_last())
    } else {
        s
    }
}

fn trim_slashes_chars(s: &[char]) -> (r: Vec<char>)
    ensures
        r@ == trim_slashes(s@),
{
    let mut end: usize = s.len();
    assert(s@.subrange(0, end as int) =~= s@);
    while end > 0 && s[end - 1] == '/'
        invariant
            end <= s@.len(),
            trim_slashes(s@) == trim_slashes(s@.subrange(0, end as int)),
        decreases end,
    {
        assert(s@.subrange(0, end as int).drop_last() =~= s@.subrange(0, end - 1));
        end = end - 1;
    }
    crate::text::sub_chars(s, 0, end)
}

/// The full object key of `name` under `prefix`: the prefix without its
/// trailing slashes, a `/`, then the name; the bare name when there is no
/// prefix.
pub open spec fn object_key(prefix: Seq<char>, name: Seq<char>) -> Seq<char> {
    if prefix.len() == 0 {
        name
    } else {
        trim_slashes(prefix) + seq!['/'] + name
    }
}

/// The key prefix a listing asks for: the prefix without its trailing
/// slashes and with one `/`; nothing when there is no prefix.
pub open spec fn listing_prefix(prefix: Seq<char>) -> Seq<char> {
    if prefix.len() == 0 {
        seq![]
    } else {
        trim_slashes(prefix) + seq!['/']
    }
}

/// How a listed key is shown: without the listing prefix when it starts
/// with it.
pub open spec fn shown_key(listed: Seq<char>, key: Seq<char>) -> Seq<char> {
    if listed.len() > 0 && listed.len() <= key.len() && key.subrange(0, listed.len() as int) == listed {
        key.subrange(listed.len() as int, key.len() as int)
    } else {
        key
    }
}

/// Where the store is: a named region, or a custom endpoint with its
/// region name.
#[derive(Clone, Debug)]
pub enum RegionSetting {
    /// A region known by name (an unknown name stands for itself).
    Named(String),
    /// An S3-compatible store at `endpoint`.
    Custom { region: String, endpoint: String },
}

/// The region setting of a backup configuration: the named region when
/// no endpoint is set, else the endpoint with the region name, or
/// `us-east-1` when none is given.
pub open spec fn region_setting_of(region: Seq<char>, endpoint: Seq<char>) -> (Seq<char>, Option<Seq<char>>) {
    if endpoint.len() == 0 {
        (region, None)
    } else if region.len() == 0 {
        ("us-east-1"@, Some(endpoint))
    } else {
        (region, Some(endpoint))
    }
}

/// The region setting as plain text: the region name, and the endpoint
/// for a custom store.
pub open spec fn setting_view(s: RegionSetting) -> (Seq<char>, Option<Seq<char>>) {
    match s {
        RegionSetting::Named(n) => (n@, None),
        RegionSetting::Custom { region, endpoint } => (region@, Some(endpoint@)),
    }
}

/// The region to use for `config`.
pub fn region_setting(config: &BackupConfig) -> (r: RegionSetting)
    ensures
        setting_view(r) == region_setting_of(config.region@, config.endpoint@),
{
    if config.endpoint.as_str().is_empty() {
        RegionSetting::Named(config.region.clone())
    } else {
        let region = if config.region.as_str().is_empty() {
            "us-east-1".to_owned()
        } else {
            config.region.clone()
        };
        RegionSetting::Custom { region, endpoint: config.endpoint.clone() }
    }
}

/// `Region::from_str`, which takes any name (an unknown one becomes a
/// custom region of that name), falling back to `us-east-1` on an error
/// it never returns. Nothing is claimed of the region.
#[verifier::external_body]
fn named_region(name: &str) -> s3::region::Region {
    name.parse::<s3::region::Region>().unwrap_or(s3::region::Region::UsEast1)
}

/// `Region::Custom` with the given region name and endpoint. Nothing is
/// claimed of the region.
#[verifier::external_body]
fn custom_region(region: String, endpoint: String) -> s3::region::Region {
    s3::region::Region::Custom { region, endpoint }
}

/// `Credentials::new` with an access key and a secret key and nothing
/// else. Given an access key it only stores the values, so it always
/// succeeds; nothing more is claimed of the credentials.
#[verifier::external_body]
fn static_credentials(access_key: &str, secret_key: &str) -> (r: Result<
    s3::creds::Credentials,
    s3::creds::error::CredentialsError,
>)
    ensures
        r is Ok,
{
    s3::creds::Credentials::new(Some(access_key), Some(secret_key), None, None, None)
}

/// `Bucket::new`: a handle on the bucket `name`. It fails when the HTTP
/// client cannot be set up (for instance when the system certificates
/// cannot be read), so nothing is claimed of the outcome.
#[verifier::external_body]
fn open_bucket(name: &str, region: s3::region::Region, credentials: s3::creds::Credentials) -> Result<
    Box<s3::bucket::Bucket>,
    StoreFailure,
> {
    s3::bucket::Bucket::new(name, region, credentials)
}

/// `Bucket::set_path_style`: path-style URLs, for compatibility with Minio
/// and other S3-compatible stores.
#[verifier::external_body]
fn use_path_style(bucket: &mut s3::bucket::Bucket) {
    bucket.set_path_style();
}

/// A handle on the bucket that holds the backups, with the key prefix they
/// are stored under.
pub struct S3Client {
    bucket: Box<s3::bucket::Bucket>,
    prefix: String,
    name: String,
    region: RegionSetting,
    access_key: String,
    secret_key: String,
}

impl S3Client {
    /// The configured key prefix.
    pub closed spec fn key_prefix(&self) -> Seq<char> {
        self.prefix@
    }

    /// The name of the bucket the client opened.
    pub closed spec fn bucket_name(&self) -> Seq<char> {
        self.name@
    }

    /// The region setting the bucket was opened with.
    pub closed spec fn region(&self) -> (Seq<char>, Option<Seq<char>>) {
        setting_view(self.region)
    }

    /// The access and secret keys the bucket was opened with.
    pub closed spec fn keys(&self) -> (Seq<char>, Seq<char>) {
        (self.access_key@, self.secret_key@)
    }

    /// Construct a client from the backup config: the bucket `config.bucket`
    /// in the region of [`region_setting`], with the configured keys and
    /// path-style addressing.
    pub fn new(config: &BackupConfig) -> (r: Result<Self, S3Error>)
        ensures
            r matches Ok(c) ==> c.key_prefix() == config.prefix@,
            r matches Ok(c) ==> c.bucket_name() == config.bucket@,
            r matches Ok(c) ==> c.region() == region_setting_of(config.region@, config.endpoint@),
            r matches Ok(c) ==> c.keys() == (config.access_key@, config.secret_key@),
            r matches Err(e) ==> e is S3,
    {
        let name = config.bucket.clone();
        let access_key = config.access_key.clone();
        let secret_key = config.secret_key.clone();
        let setting = region_setting(config);
        let region = match region_setting(config) {
            RegionSetting::Named(name) => named_region(name.as_str()),
            RegionSetting::Custom { region, endpoint } => custom_region(region, endpoint),
        };
        let credentials = match static_credentials(access_key.as_str(), secret_key.as_str()) {
            Ok(c) => c,
            Err(e) => return Err(S3Error::Credentials(e)),
        };
        let mut bucket = match open_bucket(name.as_str(), region, credentials) {
            Ok(b) => b,
            Err(e) => return Err(S3Error::S3(e)),
        };
        use_path_style(&mut bucket);
        Ok(S3Client { bucket, prefix: config.prefix.clone(), name, region: setting, access_key, secret_key })
    }

    /// The bucket handle the client holds.
    pub closed spec fn held_bucket(&self) -> s3::bucket::Bucket {
        *self.bucket
    }

    /// The bucket, for the network calls.
    pub fn bucket(&self) -> (b: &s3::bucket::Bucket)
        ensures
            *b == self.held_bucket(),
    {
        &self.bucket
    }

    /// Build the full object key by prepending the configured prefix.
    pub fn key(&self, name: &str) -> (k: String)
        ensures
            k@ == object_key(self.key_prefix(), name@),
    {
        if self.prefix.as_str().is_empty() {
            name.to_owned()
        } else {
            let pc = chars_of(self.prefix.as_str());
            let mut out = trim_slashes_chars(pc.as_slice());
            out.push('/');
            extend_str(&mut out, name);
            string_of(out.as_slice())
        }
    }

    /// The key prefix that a listing of the backups asks for.
    pub fn list_prefix(&self) -> (p: String)
        ensures
            p@ == listing_prefix(self.key_prefix()),
    {
        if self.prefix.as_str().is_empty() {
            String::new()
        } else {
            let pc = chars_of(self.prefix.as_str());
            let mut out = trim_slashes_chars(pc.as_slice());
            out.push('/');
            string_of(out.as_slice())
        }
    }

    /// The entries of a listing, given as the listed objects in the order
    /// the store returned them, with each key shown without the listing
    /// prefix.
    pub fn entries(&self, listed: Vec<BackupEntry>) -> (r: Vec<BackupEntry>)
        ensures
            r@.len() == listed@.len(),
            forall|i: int|
                0 <= i < r@.len() ==> {
                    &&& (#[trigger] r@[i]).key@ == shown_key(listing_prefix(self.key_prefix()), listed@[i].key@)
                    &&& r@[i].size == listed@[i].size
                    &&& r@[i].last_modified@ == listed@[i].last_modified@
                },
    {
        let lp = self.list_prefix();
        let lc = chars_of(lp.as_str());
        let mut out: Vec<BackupEntry> = Vec::new();
        let mut i: usize = 0;
        while i < listed.len()
            invariant
                i <= listed@.len(),
                out@.len() == i,
                lc@ == listing_prefix(self.key_prefix()),
                forall|j: int|
                    0 <= j < i ==> {
                        &&& (#[trigger] out@[j]).key@ == shown_key(lc@, listed@[j].key@)
                        &&& out@[j].size == listed@[j].size
                        &&& out@[j].last_modified@ == listed@[j].last_modified@
                    },
            decreases listed@.len() - i,
        {
            let kc = chars_of(listed[i].key.as_str());
            let strip = lc.len() > 0 && lc.len() <= kc.len() && crate::text::matches_at(
                kc.as_slice(),
                lc.as_slice(),
                0,
            );
            let key = if strip {
                let rest = crate::text::sub_chars(kc.as_slice(), lc.len(), kc.len());
                string_of(rest.as_slice())
            } else {
                listed[i].key.clone()
            };
            proof {
                if lc@.len() > 0 && lc@.len() <= kc@.len() {
                    assert(strip == (kc@.subrange(0, lc@.len() as int) == lc@)) by {
                        assert(crate::text::occurs_at(kc@, lc@, 0) == (kc@.subrange(0, lc@.len() as int) =~= lc@));
                    }
                }
            }
            out.push(BackupEntry {
                key,
                size: listed[i].size,
                last_modified: listed[i].last_modified.clone(),
            });
            i = i + 1;
        }
        out
    }
}

} // verus!
