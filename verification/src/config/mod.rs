//! Softphone settings: accounts, SIP connection and audio devices, with the
//! defaults that apply to settings a configuration file leaves out.
use vstd::prelude::*;
use crate::common::Account;
use crate::text::push_str;

verus! {

/// The SIP transport protocol.
#[derive(Debug, Clone, Copy, PartialEq, Eq, Structural)]
pub enum TransportType {
    Udp,
    Tcp,
}

impl Default for TransportType {
    /// UDP.
    fn default() -> (t: Self)
        ensures
            t == TransportType::Udp,
    {
        TransportType::Udp
    }
}

/// Where and how the SIP transport binds.
#[derive(Debug, Clone)]
pub struct ConnectionSettings {
    pub bind_address: String,
    pub transport_type: TransportType,
}

impl Default for ConnectionSettings {
    /// Binds `0.0.0.0:5060` over UDP.
    fn default() -> (c: Self)
        ensures
            c.bind_address@ == "0.0.0.0:5060"@,
            c.transport_type == TransportType::Udp,
    {
        let mut bind_address = String::new();
        push_str(&mut bind_address, "0.0.0.0:5060");
        assert(Seq::<char>::empty() + "0.0.0.0:5060"@ == "0.0.0.0:5060"@);
        Self { bind_address, transport_type: TransportType::Udp }
    }
}

/// The audio devices to use; `None` means the system default.
#[derive(Debug, Clone)]
pub struct AudioSettings {
    pub input_device: Option<String>,
    pub output_device: Option<String>,
}

impl Default for AudioSettings {
    /// The system default devices.
    fn default() -> (a: Self)
        ensures
            a.input_device is None,
            a.output_device is None,
    {
        Self { input_device: None, output_device: None }
    }
}

/// The whole configuration.
#[derive(Debug, Clone)]
pub struct Config {
    pub accounts: Vec<Account>,
    pub connection: ConnectionSettings,
    pub audio: AudioSettings,
}

impl Default for Config {
    /// No accounts, the default connection and the default audio devices.
    fn default() -> (c: Self)
        ensures
            c.accounts@.len() == 0,
            c.connection.bind_address@ == "0.0.0.0:5060"@,
            c.connection.transport_type == TransportType::Udp,
            c.audio.input_device is None,
            c.audio.output_device is None,
    {
        Self {
            accounts: Vec::new(),
            connection: ConnectionSettings::default(),
            audio: AudioSettings::default(),
        }
    }
}

} // verus!
