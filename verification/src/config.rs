//! Server configuration.

use vstd::prelude::*;

use crate::addr::{Endpoint, IpAddress};
use crate::text::{eq_ignore_ascii_case, same_ignoring_case, same_text};

verus! {

/// What the server is to do.
#[derive(Debug, Clone)]
pub struct ServerConfig {
    /// UDP bind address.
    pub listen: Endpoint,
    /// TCP bind address, if clients are to be accepted over TCP too.
    pub listen_tcp: Option<Endpoint>,
    /// PEM file with the trusted CA certificates.
    pub ca: String,
    /// PEM file with the server certificate, optionally followed by its chain.
    pub cert: String,
    /// PEM file with the server's private key.
    pub key: String,
    /// Name of the TUN interface to create.
    pub tun_name: String,
    /// The server's address in the tunnel.
    pub tun_ip: IpAddress,
    pub tun_netmask: IpAddress,
    /// First address of the client pool.
    pub client_pool_start: IpAddress,
    /// Last address of the client pool.
    pub client_pool_end: IpAddress,
    /// Data-channel cipher.
    pub cipher: String,
    pub tun_mtu: u16,
    /// CIDRs pushed to clients as routes; `0.0.0.0/0` for a full tunnel.
    pub push_routes: Vec<String>,
    /// DNS servers pushed to clients.
    pub push_dns: Vec<IpAddress>,
    /// The server's IPv6 address in the tunnel, if there is to be IPv6.
    pub tun_ip6: Option<IpAddress>,
    pub tun_prefix6: u8,
    /// First address of the IPv6 client pool; required with `tun_ip6`.
    pub client_pool_start_v6: Option<IpAddress>,
    /// Last address of the IPv6 client pool.
    pub client_pool_end_v6: Option<IpAddress>,
    /// IPv6 CIDRs pushed to clients as routes.
    pub push_routes_v6: Vec<String>,
    /// Seconds between pings.
    pub keepalive_ping: u32,
    /// Seconds without traffic after which a client is dropped.
    pub keepalive_timeout: u32,
    /// Static-key file that enables tls-auth. Ignored with `tls_crypt_key`.
    pub tls_auth_key: Option<String>,
    /// `key-direction` of tls-auth.
    pub tls_auth_key_direction: u8,
    /// Static-key file that enables tls-crypt.
    pub tls_crypt_key: Option<String>,
    /// Whether client traffic is masqueraded to the outside.
    pub enable_nat: bool,
    /// Interface to masquerade through; that of the default route if absent.
    pub wan_iface: Option<String>,
    /// Seconds between rekeys that the server starts; 0 for none.
    pub reneg_sec: u32,
    /// Overrides for single clients, by the common name in the certificate. No
    /// name occurs twice.
    pub client_configs: Vec<(String, ClientConfig)>,
}

/// Overrides for one client.
#[derive(Debug, Clone)]
pub struct ClientConfig {
    /// Fixed tunnel address; the pool is not used then.
    pub assign_ip: Option<IpAddress>,
    /// CIDRs pushed to this client after those of the server.
    pub push_routes: Vec<String>,
}

/// Why a configuration is refused.
#[derive(Debug)]
pub enum ConfigError {
    /// A cipher other than AES-256-GCM.
    UnsupportedCipher(String),
}

/// The configuration of the client named `cn`: the first that has the name.
pub open spec fn client_config_of(configs: Seq<(String, ClientConfig)>, cn: Seq<char>) -> Option<
    ClientConfig,
>
    decreases configs.len(),
{
    if configs.len() == 0 {
        None
    } else if configs[0].0@ == cn {
        Some(configs[0].1)
    } else {
        client_config_of(configs.drop_first(), cn)
    }
}

/// Where no name occurs twice, a client's configuration is the one under its
/// name, wherever that stands.
pub proof fn law_client_config(configs: Seq<(String, ClientConfig)>, i: int)
    requires
        0 <= i < configs.len(),
        forall|a: int, b: int|
            0 <= a < b < configs.len() ==> (#[trigger] configs[a]).0@ != (#[trigger] configs[b]).0@,
    ensures
        client_config_of(configs, configs[i].0@) == Some(configs[i].1),
    decreases configs.len(),
{
    if i > 0 {
        let rest = configs.drop_first();
        assert(configs[0].0@ != configs[i].0@);
        assert forall|a: int, b: int| 0 <= a < b < rest.len() implies (#[trigger] rest[a]).0@ != (
        #[trigger] rest[b]).0@ by {
            assert(configs[a + 1].0@ != configs[b + 1].0@);
        }
        law_client_config(rest, i - 1);
        assert(rest[i - 1] == configs[i]);
    }
}

impl ServerConfig {
    /// Accepts a configuration: the cipher, in whatever case, must be
    /// AES-256-GCM.
    pub fn validate(self) -> (r: Result<Self, ConfigError>)
        ensures
            match r {
                Ok(cfg) => same_ignoring_case(self.cipher@, "AES-256-GCM"@) && cfg == self,
                Err(ConfigError::UnsupportedCipher(cipher)) => !same_ignoring_case(
                    self.cipher@,
                    "AES-256-GCM"@,
                ) && cipher@ == self.cipher@,
            },
            r is Ok <==> is_supported(self.cipher@),
    {
        if eq_ignore_ascii_case(self.cipher.as_str(), "AES-256-GCM") {
            Ok(self)
        } else {
            Err(ConfigError::UnsupportedCipher(self.cipher))
        }
    }

    /// The overrides for the client named `cn`.
    pub fn client_config(&self, cn: &str) -> (r: Option<&ClientConfig>)
        ensures
            match r {
                Some(c) => client_config_of(self.client_configs@, cn@) == Some(*c),
                None => client_config_of(self.client_configs@, cn@) is None,
            },
    {
        let mut i: usize = 0;
        assert(self.client_configs@.skip(0) =~= self.client_configs@);
        while i < self.client_configs.len()
            invariant
                i <= self.client_configs@.len(),
                client_config_of(self.client_configs@, cn@) == client_config_of(
                    self.client_configs@.skip(i as int),
                    cn@,
                ),
            decreases self.client_configs@.len() - i,
        {
            let ghost rest = self.client_configs@.skip(i as int);
            assert(rest[0] == self.client_configs@[i as int]);
            if same_text(self.client_configs[i].0.as_str(), cn) {
                return Some(&self.client_configs[i].1);
            }
            assert(rest.drop_first() =~= self.client_configs@.skip(i + 1));
            i += 1;
        }
        None
    }
}

/// Name of the TUN interface where none is configured; the kernel of macOS
/// prescribes its form.
pub fn default_tun_name(macos: bool) -> (s: String)
    ensures
        s@ == if macos {
            "utun9"@
        } else {
            "javs0"@
        },
{
    if macos {
        "utun9".to_string()
    } else {
        "javs0".to_string()
    }
}

/// The cipher where none is configured.
pub fn default_cipher() -> (s: String)
    ensures
        s@ == "AES-256-GCM"@,
{
    "AES-256-GCM".to_string()
}

/// The MTU of the tunnel where none is configured.
pub fn default_mtu() -> (r: u16)
    ensures
        r == 1500,
{
    1500
}

/// Seconds between pings where none are configured.
pub fn default_keepalive_ping() -> (r: u32)
    ensures
        r == 10,
{
    10
}

/// Seconds without traffic after which a client is dropped, where none are
/// configured.
pub fn default_keepalive_timeout() -> (r: u32)
    ensures
        r == 60,
{
    60
}

/// The key direction of tls-auth where none is configured.
pub fn default_tls_auth_direction() -> (r: u8)
    ensures
        r == 1,
{
    1
}

/// Seconds between rekeys where none are configured.
pub fn default_reneg_sec() -> (r: u32)
    ensures
        r == 3600,
{
    3600
}

/// The IPv6 prefix length of the tunnel where none is configured.
pub fn default_tun_prefix6() -> (r: u8)
    ensures
        r == 64,
{
    64
}

/// Which configuration a client has: that of the first entry under its name,
/// or none where no entry has the name.
pub proof fn law_first_entry_counts(configs: Seq<(String, ClientConfig)>, cn: Seq<char>, i: int)
    ensures
        (forall|j: int| 0 <= j < configs.len() ==> (#[trigger] configs[j]).0@ != cn)
            ==> client_config_of(configs, cn) is None,
        0 <= i < configs.len() && configs[i].0@ == cn && (forall|j: int|
            0 <= j < i ==> (#[trigger] configs[j]).0@ != cn) ==> client_config_of(configs, cn)
            == Some(configs[i].1),
    decreases configs.len(),
{
    if configs.len() > 0 {
        let rest = configs.drop_first();
        law_first_entry_counts(rest, cn, i - 1);
        if forall|j: int| 0 <= j < configs.len() ==> (#[trigger] configs[j]).0@ != cn {
            assert(configs[0].0@ != cn);
            assert forall|j: int| 0 <= j < rest.len() implies (#[trigger] rest[j]).0@ != cn by {
                assert(rest[j] == configs[j + 1]);
            }
        }
        if 0 < i < configs.len() && configs[i].0@ == cn && (forall|j: int|
            0 <= j < i ==> (#[trigger] configs[j]).0@ != cn) {
            assert(configs[0].0@ != cn);
            assert(rest[i - 1] == configs[i]);
            assert forall|j: int| 0 <= j < i - 1 implies (#[trigger] rest[j]).0@ != cn by {
                assert(rest[j] == configs[j + 1]);
            }
        }
    }
}

/// Whether a cipher is supported.
pub open spec fn is_supported(cipher: Seq<char>) -> bool {
    same_ignoring_case(cipher, "AES-256-GCM"@)
}

/// AES-256-GCM is supported, each of its letters in either case, and no other
/// cipher is.
pub proof fn law_one_cipher(cipher: Seq<char>)
    ensures
        is_supported("AES-256-GCM"@),
        is_supported(cipher) <==> cipher.len() == 11 && forall|i: int|
            0 <= i < 11 ==> {
                let c = #[trigger] cipher[i] as int;
                let x = "AES-256-GCM"@[i] as int;
                c == x || ('A' as int <= x <= 'Z' as int && c == x + 32)
            },
{
    reveal_strlit("AES-256-GCM");
    crate::text::law_ignoring_case(cipher, "AES-256-GCM"@);
    if is_supported(cipher) {
        assert forall|i: int| 0 <= i < 11 implies {
            let c = #[trigger] cipher[i] as int;
            let x = "AES-256-GCM"@[i] as int;
            c == x || ('A' as int <= x <= 'Z' as int && c == x + 32)
        } by {
            let c = cipher[i] as int;
        }
    }
}

} // verus!
