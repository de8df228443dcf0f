//! The credentials of the wireless network, held in strings of bounded capacity.

use vstd::prelude::*;
use vstd::string::StringSliceAdditionalSpecFns;

verus! {

/// The most bytes that a network name may take.
pub const SSID_CAPACITY: usize = 32;

/// The most bytes that a password may take.
pub const PASSWORD_CAPACITY: usize = 64;

/// `heapless::String<N>`: a string that holds at most `N` bytes of UTF-8 in place.
#[verifier::external_type_specification]
#[verifier::external_body]
pub struct ExBoundedString<const N: usize>(heapless::String<N>);

/// The characters that a 32-byte string holds.
pub uninterp spec fn ssid_text(s: heapless::String<32>) -> Seq<char>;

/// The characters that a 64-byte string holds.
pub uninterp spec fn password_text(s: heapless::String<64>) -> Seq<char>;

/// Calls `heapless::String::<32>::try_from(&str)`. It starts from an empty string and
/// appends the bytes of `s`, which goes through exactly where they are at most 32;
/// the string then holds `s`.
#[verifier::external_body]
fn bounded_ssid(s: &str) -> (r: Option<heapless::String<32>>)
    ensures
        r is Some <==> s.spec_bytes().len() <= 32,
        r matches Some(held) ==> ssid_text(held) == s@,
{
    heapless::String::try_from(s).ok()
}

/// Calls `heapless::String::<64>::try_from(&str)`. It starts from an empty string and
/// appends the bytes of `s`, which goes through exactly where they are at most 64;
/// the string then holds `s`.
#[verifier::external_body]
fn bounded_password(s: &str) -> (r: Option<heapless::String<64>>)
    ensures
        r is Some <==> s.spec_bytes().len() <= 64,
        r matches Some(held) ==> password_text(held) == s@,
{
    heapless::String::try_from(s).ok()
}

/// Why a pair of credentials cannot be used.
#[derive(Clone, Copy, Debug, PartialEq, Eq, Structural)]
pub enum CredentialsError {
    /// The network name takes more than [`SSID_CAPACITY`] bytes.
    SsidTooLong,
    /// The password takes more than [`PASSWORD_CAPACITY`] bytes.
    PasswordTooLong,
}

/// The name and the password of a network, each within the capacity that the
/// network stack gives it.
pub struct Credentials {
    pub ssid: heapless::String<32>,
    pub password: heapless::String<64>,
}

/// Puts a network name and a password into strings of the capacities that the
/// network stack takes. The name is judged first.
pub fn credentials(ssid: &str, password: &str) -> (r: Result<Credentials, CredentialsError>)
    ensures
        (match r {
            Ok(held) => {
                &&& ssid.spec_bytes().len() <= SSID_CAPACITY
                &&& password.spec_bytes().len() <= PASSWORD_CAPACITY
                &&& ssid_text(held.ssid) == ssid@
                &&& password_text(held.password) == password@
            },
            Err(CredentialsError::SsidTooLong) => ssid.spec_bytes().len() > SSID_CAPACITY,
            Err(CredentialsError::PasswordTooLong) => {
                &&& ssid.spec_bytes().len() <= SSID_CAPACITY
                &&& password.spec_bytes().len() > PASSWORD_CAPACITY
            },
        }),
{
    let wifi_ssid = match bounded_ssid(ssid) {
        Some(held) => held,
        None => {
            return Err(CredentialsError::SsidTooLong);
        },
    };
    let wifi_password = match bounded_password(password) {
        Some(held) => held,
        None => {
            return Err(CredentialsError::PasswordTooLong);
        },
    };
    Ok(Credentials { ssid: wifi_ssid, password: wifi_password })
}

} // verus!
