use vstd::prelude::*;

verus! {

/// The arguments the program runs with.
#[derive(Debug)]
pub struct ProgramArguments {
    /// Location of the configuration file.
    config_file: String,
    /// User name for authentication.
    username: String,
    /// Location of the public key.
    public_key_path: String,
    /// Location of the private key.
    private_key_path: String,
}

/// The mathematical value of [`ProgramArguments`].
pub struct ProgramArgumentsView {
    pub config_file: Seq<char>,
    pub username: Seq<char>,
    pub public_key_path: Seq<char>,
    pub private_key_path: Seq<char>,
}

impl View for ProgramArguments {
    type V = ProgramArgumentsView;

    closed spec fn view(&self) -> ProgramArgumentsView {
        ProgramArgumentsView {
            config_file: self.config_file@,
            username: self.username@,
            public_key_path: self.public_key_path@,
            private_key_path: self.private_key_path@,
        }
    }
}

impl ProgramArguments {
    /// Holds the values read from the command line.
    pub fn with_values(
        config_file: String,
        username: String,
        public_key_path: String,
        private_key_path: String,
    ) -> (r: Self)
        ensures
            r@ == (ProgramArgumentsView {
                config_file: config_file@,
                username: username@,
                public_key_path: public_key_path@,
                private_key_path: private_key_path@,
            }),
    {
        ProgramArguments { config_file, username, public_key_path, private_key_path }
    }

    /// Returns the location of the configuration file.
    pub fn config_file(&self) -> (r: &str)
        ensures
            r@ == self@.config_file,
    {
        self.config_file.as_str()
    }

    /// Returns the user name for authentication.
    pub fn username(&self) -> (r: &str)
        ensures
            r@ == self@.username,
    {
        self.username.as_str()
    }

    /// Returns the location of the public key.
    pub fn public_key_path(&self) -> (r: &str)
        ensures
            r@ == self@.public_key_path,
    {
        self.public_key_path.as_str()
    }

    /// Returns the location of the private key.
    pub fn private_key_path(&self) -> (r: &str)
        ensures
            r@ == self@.private_key_path,
    {
        self.private_key_path.as_str()
    }
}

} // verus!
