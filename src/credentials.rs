use vstd::prelude::*;

verus! {

/// What every execution handle authenticates with.
pub struct Credentials {
    username: String,
    public_key_path: String,
    private_key_path: String,
}

impl Credentials {
    /// The user name of the credentials.
    pub closed spec fn spec_username(&self) -> Seq<char> {
        self.username@
    }

    /// The location of the public key.
    pub closed spec fn spec_public_key_path(&self) -> Seq<char> {
        self.public_key_path@
    }

    /// The location of the private key.
    pub closed spec fn spec_private_key_path(&self) -> Seq<char> {
        self.private_key_path@
    }

    /// Builds credentials from a user name and the locations of a key pair.
    pub fn new(username: &str, public_key_path: &str, private_key_path: &str) -> (r: Self)
        ensures
            r.spec_username() == username@,
            r.spec_public_key_path() == public_key_path@,
            r.spec_private_key_path() == private_key_path@,
    {
        Self {
            username: String::from_str(username),
            public_key_path: String::from_str(public_key_path),
            private_key_path: String::from_str(private_key_path),
        }
    }

    /// The user name to authenticate as.
    pub fn username(&self) -> (r: &str)
        ensures
            r@ == self.spec_username(),
    {
        self.username.as_str()
    }

    /// The location of the public key.
    pub fn public_key_path(&self) -> (r: &str)
        ensures
            r@ == self.spec_public_key_path(),
    {
        self.public_key_path.as_str()
    }

    /// The location of the private key.
    pub fn private_key_path(&self) -> (r: &str)
        ensures
            r@ == self.spec_private_key_path(),
    {
        self.private_key_path.as_str()
    }
}

} // verus!
