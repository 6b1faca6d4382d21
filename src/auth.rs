//! The credential check made during the handshake.
use vstd::prelude::*;

use crate::config::Config;

verus! {

/// The fixed bytes from which the handshake salt is derived.
pub open spec fn salt_seed() -> Seq<u8> {
    seq![59u8, 88, 44, 112, 111, 95, 107, 125, 111, 54, 94, 87, 122, 33, 47, 107, 77, 125, 78, 97]
}

/// A seed byte as it goes into the salt: NUL and `$` are moved to the next
/// byte value, since neither may appear in a handshake salt.
pub open spec fn salt_byte(b: u8) -> u8 {
    if b == 0 || b == 36 {
        (b + 1) as u8
    } else {
        b
    }
}

/// Accepts or rejects a client by the user name it presents.
pub struct AuthProvider {
    pub config: Config,
}

impl AuthProvider {
    pub fn new(config: Config) -> (r: Self)
        ensures
            r.config == config,
    {
        AuthProvider { config }
    }

    /// Whether `username` is exactly the configured user name. The password
    /// is not compared.
    pub fn authenticate(&self, username: &str) -> (r: bool)
        ensures
            r == (username@ == self.config.mysql_username@),
    {
        let presented = username.to_owned();
        presented == self.config.mysql_username
    }

    /// The authentication plugin offered to every client.
    pub fn default_auth_plugin(&self) -> (r: &'static str)
        ensures
            r@ == "mysql_native_password"@,
    {
        "mysql_native_password"
    }

    /// The 20-byte handshake salt: the seed with NUL and `$` moved to the
    /// next byte value. It is the same on every call.
    pub fn generate_salt(&self) -> (r: [u8; 20])
        ensures
            r@ == salt_seed().map_values(|b: u8| salt_byte(b)),
            forall|i: int| 0 <= i < 20 ==> r@[i] != 0 && r@[i] != 36,
    {
        let bs: [u8; 20] = [
            59u8, 88, 44, 112, 111, 95, 107, 125, 111, 54, 94, 87, 122, 33, 47, 107, 77, 125, 78, 97,
        ];
        let mut scramble: [u8; 20] = [0u8; 20];
        let mut i: usize = 0;
        while i < 20
            invariant
                i <= 20,
                bs@ == salt_seed(),
                forall|j: int| 0 <= j < i ==> scramble@[j] == salt_byte(bs@[j]),
            decreases 20 - i,
        {
            scramble[i] = bs[i];
            if scramble[i] == 0 || scramble[i] == 36 {
                scramble[i] = scramble[i] + 1;
            }
            i = i + 1;
        }
        assert(scramble@ =~= salt_seed().map_values(|b: u8| salt_byte(b)));
        scramble
    }
}

} // verus!
