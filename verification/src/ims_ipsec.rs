//! XFRM/IPsec primitives used by the native IMS registration path.
//!
//! The AKA worker supplies the negotiated keys and SPIs. This module keeps command construction
//! and validation separate so that an incomplete authentication result can never install a
//! partial policy.
use vstd::prelude::*;
use crate::command;
use crate::command::error_output_text;
use crate::error::ImsError;
use crate::ipv6;
use crate::ipv6::Ipv6Addr;
use crate::number;
use crate::number::{all_hex, push_hex_fixed};
use crate::text;
use crate::text::chars_of;

verus! {

/// One direction of a protected channel.
#[derive(Debug, Clone, PartialEq, Eq)]
pub struct EspSecurityAssociation {
    pub local: Ipv6Addr,
    pub remote: Ipv6Addr,
    pub spi: u32,
    pub auth_key_hex: String,
    pub enc_key_hex: String,
}

/// `value` holds nothing but hexadecimal digits, and an even number of them.
pub fn is_hex(value: &str) -> (r: bool)
    ensures
        r == number::is_hex_text(value@),
{
    let chars = chars_of(value);
    all_hex(&chars)
}

impl EspSecurityAssociation {
    /// The association has an SPI, and both keys are there and hexadecimal.
    pub open spec fn is_complete(self) -> bool {
        &&& self.spi != 0
        &&& self.auth_key_hex@.len() > 0
        &&& self.enc_key_hex@.len() > 0
        &&& number::is_hex_text(self.auth_key_hex@)
        &&& number::is_hex_text(self.enc_key_hex@)
    }

    /// What is missing from an association that is not complete.
    pub open spec fn defect(self) -> ImsError {
        if self.spi == 0 {
            ImsError::ZeroSpi
        } else if self.auth_key_hex@.len() == 0 || self.enc_key_hex@.len() == 0 {
            ImsError::EmptyKeys
        } else {
            ImsError::KeysNotHex
        }
    }

    /// The arguments with which `ip` adds the association in transport mode.
    pub open spec fn arguments(self) -> Seq<Seq<char>> {
        seq![
            "xfrm"@,
            "state"@,
            "add"@,
            "src"@,
            ipv6::ipv6_text(self.local@),
            "dst"@,
            ipv6::ipv6_text(self.remote@),
            "proto"@,
            "esp"@,
            "spi"@,
            "0x"@ + number::hex_fixed(self.spi as nat, 8),
            "mode"@,
            "transport"@,
            "auth-trunc"@,
            "hmac(sha1)"@,
            self.auth_key_hex@,
            "96"@,
            "enc"@,
            "cbc(aes)"@,
            self.enc_key_hex@,
        ]
    }

    /// The association is complete.
    pub fn validate(&self) -> (r: Result<(), ImsError>)
        ensures
            match r {
                Ok(_) => self.is_complete(),
                Err(e) => !self.is_complete() && e == self.defect(),
            },
    {
        if self.spi == 0 {
            return Err(ImsError::ZeroSpi);
        }
        if self.auth_key_hex.as_str().is_empty() || self.enc_key_hex.as_str().is_empty() {
            return Err(ImsError::EmptyKeys);
        }
        if !is_hex(&self.auth_key_hex) || !is_hex(&self.enc_key_hex) {
            return Err(ImsError::KeysNotHex);
        }
        Ok(())
    }

    /// The arguments with which `ip` adds the association in transport mode.
    pub fn args(&self) -> (v: Vec<String>)
        ensures
            text::texts(v@) == self.arguments(),
    {
        let mut spi = "0x".to_owned();
        push_hex_fixed(&mut spi, self.spi, 8);
        let mut v: Vec<String> = Vec::new();
        v.push("xfrm".to_owned());
        v.push("state".to_owned());
        v.push("add".to_owned());
        v.push("src".to_owned());
        v.push(self.local.to_text());
        v.push("dst".to_owned());
        v.push(self.remote.to_text());
        v.push("proto".to_owned());
        v.push("esp".to_owned());
        v.push("spi".to_owned());
        v.push(spi);
        v.push("mode".to_owned());
        v.push("transport".to_owned());
        v.push("auth-trunc".to_owned());
        v.push("hmac(sha1)".to_owned());
        v.push(self.auth_key_hex.clone());
        v.push("96".to_owned());
        v.push("enc".to_owned());
        v.push("cbc(aes)".to_owned());
        v.push(self.enc_key_hex.clone());
        assert(text::texts(v@) =~= self.arguments());
        v
    }
}

/// The arguments with which `ip` installs the association. There are none for an association that
/// is not complete.
pub fn esp_state_command(sa: &EspSecurityAssociation) -> (r: Result<Vec<String>, ImsError>)
    ensures
        match r {
            Ok(v) => sa.is_complete() && text::texts(v@) == sa.arguments(),
            Err(e) => !sa.is_complete() && e == sa.defect(),
        },
{
    match sa.validate() {
        Ok(_) => Ok(sa.args()),
        Err(e) => Err(e),
    }
}

/// How the installation of an association ended.
pub fn esp_state_outcome(success: bool, stderr: &[u8]) -> (r: Result<(), ImsError>)
    ensures
        match r {
            Ok(_) => success,
            Err(e) => !success && e is EspNotInstalled && e->EspNotInstalled_0@ == command::error_output(
                stderr@,
            ),
        },
{
    if success {
        Ok(())
    } else {
        Err(ImsError::EspNotInstalled(error_output_text(stderr)))
    }
}

} // verus!
