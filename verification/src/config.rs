//! Server configuration and the master key.
use crate::decimal::count_text;
use crate::text::copy_text;
use crate::trim::{is_blank, trim};
use base64::{engine::general_purpose::STANDARD, Engine};
use rand::RngCore;
use vstd::prelude::*;

verus! {

use crate::decimal::decimal;
use crate::text::{opt_view, white_space};
use crate::trim::{
    all_blank,
    blank,
    law_blank_texts,
    lemma_strip_back_unique,
    lemma_strip_front_unique,
    trimmed,
};

/// Length of a master key in bytes.
pub const MASTER_KEY_LEN: usize = 32;

/// The periodic check for newer server releases.
#[derive(Debug, Clone)]
pub struct UpdaterConfig {
    /// Whether the release feed is polled at all.
    pub enabled: bool,
    /// Hours between two checks.
    pub check_interval_hours: u32,
    pub release_feed_url: String,
    /// Only releases whose tag starts with this count.
    pub tag_prefix: String,
    pub github_token: Option<String>,
}

impl Default for UpdaterConfig {
    fn default() -> (r: UpdaterConfig)
        ensures
            r.enabled,
            r.check_interval_hours == 6,
            r.release_feed_url@
                == "https://api.github.com/repos/2lukewil/snipdesk/releases?per_page=20"@,
            r.tag_prefix@ == "server-v"@,
            r.github_token is None,
    {
        UpdaterConfig {
            enabled: true,
            check_interval_hours: 6,
            release_feed_url: "https://api.github.com/repos/2lukewil/snipdesk/releases?per_page=20".to_owned(),
            tag_prefix: "server-v".to_owned(),
            github_token: None,
        }
    }
}

/// The name that the dashboard shows.
#[derive(Debug, Clone)]
pub struct BrandConfig {
    pub name: String,
}

impl Default for BrandConfig {
    fn default() -> (r: BrandConfig)
        ensures
            r.name@ == "SnipDesk"@,
    {
        BrandConfig { name: "SnipDesk".to_owned() }
    }
}

/// The live exchange-rate feed.
#[derive(Debug, Clone)]
pub struct FxConfig {
    /// A known provider, or a URL that answers in the same shape.
    pub provider: String,
    /// Hours for which fetched rates are kept.
    pub cache_ttl_hours: u32,
}

impl Default for FxConfig {
    fn default() -> (r: FxConfig)
        ensures
            r.provider@ == "open.er-api.com"@,
            r.cache_ttl_hours == 24,
    {
        FxConfig { provider: "open.er-api.com".to_owned(), cache_ttl_hours: 24 }
    }
}

/// Days for which a deleted snippet is kept as a tombstone.
pub fn default_tombstone_retention_days() -> (r: u32)
    ensures
        r == 90,
{
    90
}

/// Words per minute that the time-saved estimate assumes.
pub fn default_stats_wpm() -> (r: u32)
    ensures
        r == 80,
{
    80
}

/// The currency that wages are taken to be in.
pub fn default_stats_currency() -> (r: String)
    ensures
        r@ == "AUD"@,
{
    "AUD".to_owned()
}

/// Where the master key comes from, besides the environment.
#[derive(Debug)]
pub struct CryptoConfig {
    /// The key itself, in base64. Lowest priority.
    pub master_key: Option<String>,
    /// A file that holds the key in base64.
    pub master_key_file: Option<String>,
}

impl Default for CryptoConfig {
    fn default() -> (r: CryptoConfig)
        ensures
            r.master_key is None,
            r.master_key_file is None,
    {
        CryptoConfig { master_key: None, master_key_file: None }
    }
}

/// Optional sign-in providers.
#[derive(Debug)]
pub struct OidcConfig {
    pub google: Option<GoogleOidcConfig>,
}

impl Default for OidcConfig {
    fn default() -> (r: OidcConfig)
        ensures
            r.google is None,
    {
        OidcConfig { google: None }
    }
}

/// Sign-in with Google.
#[derive(Debug, Clone)]
pub struct GoogleOidcConfig {
    pub client_id: String,
    pub client_secret: String,
    pub redirect_uri: String,
    /// The Workspace domain that a token has to name.
    pub required_hd: Option<String>,
    /// Email domains that are let in.
    pub allowed_email_domains: Vec<String>,
}

/// A master key for AES-256-GCM. The bytes are private to this module.
pub struct MasterKey([u8; 32]);

#[verifier::external_type_specification]
#[verifier::external_body]
pub struct ExBase64DecodeError(base64::DecodeError);

/// Bytes in standard base64 with padding.
pub uninterp spec fn base64_text(bytes: Seq<u8>) -> Seq<char>;

/// The bytes that a text in standard base64 stands for; none where it is not
/// base64.
pub uninterp spec fn base64_bytes(text: Seq<char>) -> Option<Seq<u8>>;

/// The characters of standard base64.
pub open spec fn base64_char(c: char) -> bool {
    ||| 'A' <= c <= 'Z'
    ||| 'a' <= c <= 'z'
    ||| '0' <= c <= '9'
    ||| c == '+'
    ||| c == '/'
    ||| c == '='
}

/// base64's `Engine::encode` on 32 bytes: the text is named, is not empty, holds
/// characters of the base64 alphabet only, and decodes to the bytes.
#[verifier::external_body]
pub(crate) fn base64_of_key(key: &[u8; 32]) -> (r: String)
    ensures
        r@ == base64_text(key@),
        r@.len() > 0,
        forall|i: int| 0 <= i < r@.len() ==> base64_char(#[trigger] r@[i]),
        base64_bytes(r@) == Some(key@),
{
    STANDARD.encode(key)
}

/// base64's `Engine::decode`: the outcome is named.
#[verifier::external_body]
fn base64_decode(text: &str) -> (r: Result<Vec<u8>, base64::DecodeError>)
    ensures
        match r {
            Ok(b) => base64_bytes(text@) == Some(b@),
            Err(_) => base64_bytes(text@) is None,
        },
{
    STANDARD.decode(text)
}

/// rand's `fill_bytes` of the thread's generator. Nothing is claimed of the
/// bytes.
#[verifier::external_body]
pub(crate) fn random_key() -> [u8; 32] {
    let mut bytes = [0u8; 32];
    rand::thread_rng().fill_bytes(&mut bytes);
    bytes
}

/// What is wrong with a key's text, by what it decodes to.
pub open spec fn key_fault(decoded: Option<Seq<u8>>) -> Option<Seq<char>> {
    match decoded {
        None => Some("master key is not valid base64"@),
        Some(b) => if b.len() != MASTER_KEY_LEN {
            Some(
                "master key must decode to "@ + decimal(MASTER_KEY_LEN as nat) + " bytes; got "@
                    + decimal(b.len()),
            )
        } else {
            None
        },
    }
}

impl MasterKey {
    /// The bytes of the key.
    pub closed spec fn bytes(self) -> Seq<u8> {
        self.0@
    }

    /// The bytes of the key.
    pub fn as_bytes(&self) -> (r: &[u8; 32])
        ensures
            r@ == self.bytes(),
    {
        &self.0
    }

    /// The key that decoded bytes make, or what is wrong with them.
    pub fn from_decoded(decoded: Option<Vec<u8>>) -> (r: Result<MasterKey, String>)
        ensures
            ({
                let d = match decoded {
                    Some(b) => Some(b@),
                    None => None,
                };
                match r {
                    Ok(k) => key_fault(d) is None && d == Some(k.bytes()),
                    Err(e) => key_fault(d) == Some(e@),
                }
            }),
    {
        match decoded {
            None => Err("master key is not valid base64".to_owned()),
            Some(b) => {
                let n: usize = b.len();
                if n != MASTER_KEY_LEN {
                    let mut m: String = "master key must decode to ".to_owned();
                    let a = count_text(MASTER_KEY_LEN);
                    m.push_str(a.as_str());
                    m.push_str(" bytes; got ");
                    let g = count_text(n);
                    m.push_str(g.as_str());
                    return Err(m);
                }
                let mut out: [u8; 32] = [0u8;32];
                for i in 0..n
                    invariant
                        n == b@.len() == 32,
                        out@.len() == 32,
                        forall|k: int| 0 <= k < i ==> #[trigger] out@[k] == b@[k],
                {
                    out[i] = b[i];
                }
                assert(out@ =~= b@);
                Ok(MasterKey(out))
            },
        }
    }

    /// Reads a key from base64; white space around it does not count.
    pub fn from_base64(input: &str) -> (r: Result<MasterKey, String>)
        ensures
            match r {
                Ok(k) => key_fault(base64_bytes(trimmed(input@))) is None && base64_bytes(
                    trimmed(input@),
                ) == Some(k.bytes()),
                Err(e) => key_fault(base64_bytes(trimmed(input@))) == Some(e@),
            },
    {
        let t = trim(input);
        match base64_decode(t.as_str()) {
            Ok(b) => MasterKey::from_decoded(Some(b)),
            Err(_) => MasterKey::from_decoded(None),
        }
    }

    /// A fresh random key.
    pub fn generate() -> (r: MasterKey)
        ensures
            r.bytes().len() == MASTER_KEY_LEN,
    {
        MasterKey(random_key())
    }

    /// The key in base64. The text reads back as the key, and has nothing to
    /// trim.
    pub fn to_base64(&self) -> (r: String)
        ensures
            r@ == base64_text(self.bytes()),
            base64_bytes(trimmed(r@)) == Some(self.bytes()),
            key_fault(base64_bytes(trimmed(r@))) is None,
    {
        let r = base64_of_key(&self.0);
        proof {
            lemma_nothing_to_trim(r@);
        }
        r
    }
}

proof fn lemma_nothing_to_trim(s: Seq<char>)
    requires
        s.len() > 0,
        forall|i: int| 0 <= i < s.len() ==> base64_char(#[trigger] s[i]),
    ensures
        trimmed(s) == s,
{
    assert(!white_space(s[0]));
    assert(!white_space(s[s.len() - 1]));
    lemma_strip_front_unique(s, blank(), 0);
    assert(s.skip(0) =~= s);
    lemma_strip_back_unique(s, blank(), s.len() as int);
    assert(s.take(s.len() as int) =~= s);
}

/// Where the master key is to be taken from.
pub enum KeySource {
    /// This text, from the environment.
    Environment(String),
    /// The file at this path.
    File(String),
    /// This text, from the configuration.
    Inline(String),
    /// Nowhere: no key is configured.
    Missing,
}

/// Whether `r` is the source that a key comes from, by strict priority: the
/// environment unless blank, then the file, then the inline key.
pub open spec fn is_key_source(
    r: KeySource,
    env: Option<Seq<char>>,
    file: Option<Seq<char>>,
    inline: Option<Seq<char>>,
) -> bool {
    match r {
        KeySource::Environment(t) => env == Some(t@) && trimmed(t@).len() > 0,
        KeySource::File(p) => !env_has_key(env) && file == Some(p@),
        KeySource::Inline(t) => !env_has_key(env) && file is None && inline == Some(t@),
        KeySource::Missing => !env_has_key(env) && file is None && inline is None,
    }
}

/// Whether the environment holds a key.
pub open spec fn env_has_key(env: Option<Seq<char>>) -> bool {
    env matches Some(t) && trimmed(t).len() > 0
}

/// Picks the source of the master key.
pub fn master_key_source(env: Option<String>, cfg: &CryptoConfig) -> (r: KeySource)
    ensures
        is_key_source(r, opt_view(env), opt_view(cfg.master_key_file), opt_view(cfg.master_key)),
{
    if let Some(t) = env {
        if !is_blank(t.as_str()) {
            return KeySource::Environment(t);
        }
    }
    if let Some(p) = &cfg.master_key_file {
        return KeySource::File(copy_text(p.as_str()));
    }
    if let Some(t) = &cfg.master_key {
        return KeySource::Inline(copy_text(t.as_str()));
    }
    KeySource::Missing
}

/// What an operator is told where no key is configured.
pub fn missing_key_message() -> (r: &'static str)
    ensures
        r@ == "no master encryption key configured. Set one of:\n  \
         - SNIPDESK_MASTER_KEY env var (base64 of 32 bytes)\n  \
         - [crypto].master_key_file = \"/path/to/key\"\n  \
         - [crypto].master_key = \"<base64>\" (development only)\n\
         Generate a fresh key with: snipdesk-server gen-key"@,
{
    "no master encryption key configured. Set one of:\n  \
         - SNIPDESK_MASTER_KEY env var (base64 of 32 bytes)\n  \
         - [crypto].master_key_file = \"/path/to/key\"\n  \
         - [crypto].master_key = \"<base64>\" (development only)\n\
         Generate a fresh key with: snipdesk-server gen-key"
}

/// Whether a key file is readable by its owner alone, by its Unix mode bits.
pub fn key_file_mode_ok(mode: u32) -> (r: bool)
    ensures
        r == (mode & 0o077 == 0),
{
    mode & 0o077 == 0
}

/// The URL that rates are fetched from, where the provider is known.
pub open spec fn provider_url(provider: Seq<char>) -> Option<Seq<char>> {
    if provider == "open.er-api.com"@ {
        Some("https://open.er-api.com/v6/latest/USD"@)
    } else if "http"@.is_prefix_of(provider) {
        Some(provider)
    } else {
        None
    }
}

/// The URL that rates are fetched from: that of a known provider, or a custom
/// one as it stands.
pub fn fx_url(cfg: &FxConfig) -> (r: Result<String, String>)
    ensures
        match r {
            Ok(u) => provider_url(cfg.provider@) == Some(u@),
            Err(e) => provider_url(cfg.provider@) is None && e@ == "unknown fx provider '"@
                + cfg.provider@ + "'"@,
        },
{
    if crate::text::same_text(cfg.provider.as_str(), "open.er-api.com") {
        Ok("https://open.er-api.com/v6/latest/USD".to_owned())
    } else if crate::find::starts_with(cfg.provider.as_str(), "http") {
        Ok(copy_text(cfg.provider.as_str()))
    } else {
        let mut m: String = "unknown fx provider '".to_owned();
        m.push_str(cfg.provider.as_str());
        m.push_str("'");
        Err(m)
    }
}

/// Seconds between two fetches of the rates; at least an hour.
pub fn fx_refresh_seconds(cfg: &FxConfig) -> (r: u64)
    ensures
        r == (if cfg.cache_ttl_hours < 1 {
            3600int
        } else {
            cfg.cache_ttl_hours * 3600
        }),
{
    let hours: u64 = if cfg.cache_ttl_hours < 1 { 1 } else { cfg.cache_ttl_hours as u64 };
    hours * 3600
}

/// A key has as many bytes as a key must have.
pub proof fn law_keys_have_their_length(b: Seq<u8>)
    ensures
        key_fault(Some(b)) is None <==> b.len() == 32,
        key_fault(None) is Some,
{
}

/// Rates come from the provider that is named: from the one that is known by its name, or from
/// the address that is given.
pub proof fn law_rates_come_from_the_provider(rest: Seq<char>, name: Seq<char>)
    ensures
        provider_url("open.er-api.com"@) == Some("https://open.er-api.com/v6/latest/USD"@),
        provider_url(seq!['h', 't', 't', 'p'] + rest) == Some(seq!['h', 't', 't', 'p'] + rest),
        name.len() > 0 && name[0] != 'h' && name != "open.er-api.com"@ ==> provider_url(
            name,
        ) is None,
{
    reveal_strlit("http");
    reveal_strlit("open.er-api.com");
    let h = "http"@;
    assert(h =~= seq!['h', 't', 't', 'p']);
    let w = h + rest;
    assert(w.subrange(0, 4) =~= h);
    assert(h.is_prefix_of(w));
    assert(w[0] == 'h');
    assert("open.er-api.com"@[0] == 'o');
    if h.is_prefix_of(name) {
        assert(name.subrange(0, 4)[0] == h[0]);
    }
}

/// The key is taken from the environment where there is one, else from a file, else from the
/// configuration itself; a blank variable counts as none.
pub proof fn law_keys_are_looked_for_in_turn(
    r: KeySource,
    env: Option<Seq<char>>,
    file: Option<Seq<char>>,
    inline: Option<Seq<char>>,
)
    requires
        is_key_source(r, env, file, inline),
    ensures
        env is Some && !all_blank(env->0) ==> (r matches KeySource::Environment(t) && t@ == env->0),
        (env is None || all_blank(env->0)) && file is Some ==> (r matches KeySource::File(p) && p@
            == file->0),
        (env is None || all_blank(env->0)) && file is None && inline is Some ==> (
        r matches KeySource::Inline(t) && t@ == inline->0),
        (env is None || all_blank(env->0)) && file is None && inline is None ==> r is Missing,
{
    if let Some(t) = env {
        law_blank_texts(t);
    }
}

} // verus!
