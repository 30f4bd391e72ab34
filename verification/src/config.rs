//! WiFi credentials and OSC target.

use vstd::prelude::*;

use crate::profile::opt_text;
use crate::text::{decimal, law_decimal_reads_back, parsed_uint, push_decimal};

verus! {

/// Namespace that the settings are stored under.
pub const NAMESPACE: &'static str = "mk1";

/// Port that controls are sent to unless another is configured.
pub const DEFAULT_PORT: u16 = 9000;

#[derive(Debug, PartialEq, Eq)]
pub struct Config {
    pub ssid: String,
    pub pass: String,
    pub target_ip: String,
    pub target_port: u16,
}

/// A configuration by its contents.
pub struct ConfigView {
    pub ssid: Seq<char>,
    pub pass: Seq<char>,
    pub target_ip: Seq<char>,
    pub target_port: u16,
}

impl View for Config {
    type V = ConfigView;

    open spec fn view(&self) -> ConfigView {
        ConfigView {
            ssid: self.ssid@,
            pass: self.pass@,
            target_ip: self.target_ip@,
            target_port: self.target_port,
        }
    }
}

/// A stored text, or the empty one.
pub open spec fn text_or_empty(t: Option<Seq<char>>) -> Seq<char> {
    match t {
        Some(s) => s,
        None => Seq::empty(),
    }
}

/// The configuration in stored values: none without a network name.
pub open spec fn stored_config(
    ssid: Option<Seq<char>>,
    pass: Option<Seq<char>>,
    ip: Option<Seq<char>>,
    port: Option<u16>,
) -> Option<ConfigView> {
    if text_or_empty(ssid).len() == 0 {
        None
    } else {
        Some(
            ConfigView {
                ssid: text_or_empty(ssid),
                pass: text_or_empty(pass),
                target_ip: text_or_empty(ip),
                target_port: match port {
                    Some(p) => p,
                    None => DEFAULT_PORT,
                },
            },
        )
    }
}

/// `host:port`.
pub open spec fn host_port(ip: Seq<char>, port: u16) -> Seq<char> {
    ip + seq![':'] + decimal(port as nat)
}

/// The text, or the empty one.
pub fn or_empty(t: Option<String>) -> (r: String)
    ensures
        r@ == text_or_empty(opt_text(t)),
{
    match t {
        Some(s) => s,
        None => {
            let r = String::new();
            assert(r@ =~= Seq::empty());
            r
        },
    }
}

/// Whether a network name has been stored.
pub fn is_configured(ssid: &Option<String>) -> (r: bool)
    ensures
        r == (text_or_empty(opt_text(*ssid)).len() > 0),
{
    match ssid {
        Some(s) => s.as_str().unicode_len() > 0,
        None => false,
    }
}

impl Config {
    /// The configuration in stored values; none until the portal has saved a
    /// network name.
    pub fn load(
        ssid: Option<String>,
        pass: Option<String>,
        ip: Option<String>,
        port: Option<u16>,
    ) -> (r: Option<Config>)
        ensures
            match r {
                Some(c) => stored_config(opt_text(ssid), opt_text(pass), opt_text(ip), port)
                    == Some(c@),
                None => stored_config(
                    opt_text(ssid),
                    opt_text(pass),
                    opt_text(ip),
                    port,
                ) is None,
            },
    {
        if !is_configured(&ssid) {
            return None;
        }
        Some(
            Config {
                ssid: or_empty(ssid),
                pass: or_empty(pass),
                target_ip: or_empty(ip),
                target_port: match port {
                    Some(p) => p,
                    None => DEFAULT_PORT,
                },
            },
        )
    }

    /// Where controls are sent: `ip:port`.
    pub fn target(&self) -> (r: String)
        ensures
            r@ == host_port(self@.target_ip, self@.target_port),
    {
        let mut out = self.target_ip.clone();
        out.push(':');
        push_decimal(&mut out, self.target_port as u64);
        assert(out@ =~= host_port(self@.target_ip, self@.target_port));
        out
    }
}

/// What was saved is what is loaded, if it has a network name.
pub proof fn law_saved_config_is_loaded(c: ConfigView)
    ensures
        stored_config(Some(c.ssid), Some(c.pass), Some(c.target_ip), Some(c.target_port))
            == if c.ssid.len() > 0 {
            Some(c)
        } else {
            None
        },
{
}

/// Only the network name is needed: a missing password or address is empty, and
/// a missing port is 9000.
pub proof fn law_missing_values_have_defaults(ssid: Seq<char>)
    requires
        ssid.len() > 0,
    ensures
        stored_config(Some(ssid), None, None, None) == Some(
            ConfigView {
                ssid,
                pass: Seq::empty(),
                target_ip: Seq::empty(),
                target_port: 9000,
            },
        ),
        forall|pass: Option<Seq<char>>, ip: Option<Seq<char>>, port: Option<u16>|
            #[trigger] stored_config(None, pass, ip, port) is None,
{
}

/// A target reads back as the address and the port it was made of.
pub proof fn law_target_reads_back(ip: Seq<char>, port: u16)
    ensures
        host_port(ip, port).take(ip.len() as int) == ip,
        host_port(ip, port)[ip.len() as int] == ':',
        parsed_uint(host_port(ip, port).skip(ip.len() as int + 1), 65535) == Some(port as nat),
{
    assert(host_port(ip, port).take(ip.len() as int) =~= ip);
    assert(host_port(ip, port).skip(ip.len() as int + 1) =~= decimal(port as nat));
    law_decimal_reads_back(port as nat, 65535);
}

} // verus!
