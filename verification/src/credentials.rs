//! The identity of this installation, and the phone that is paired with it.
use crate::bytes::to_array;
use crate::text;
use crate::text::push_decimal;
use crate::v5::crypto::wipe;
use snow::params::NoiseParams;
use snow::Builder;
use vstd::prelude::*;
use vstd::string::*;

verus! {

pub const STORE_VERSION: u8 = 1;

/// The protocol whose keys identify an installation.
pub const NOISE_NAME: &'static str = "Noise_XX_25519_ChaChaPoly_BLAKE2s";

/// The parameters of a Noise protocol.
#[verifier::external_type_specification]
#[verifier::external_body]
pub struct ExNoiseParams(snow::params::NoiseParams);

/// The error of the Noise crate.
#[verifier::external_type_specification]
#[verifier::external_body]
pub struct ExNoiseError(snow::Error);

/// Whether the Noise crate knows a protocol by this name.
pub uninterp spec fn names_protocol(name: Seq<char>) -> bool;

/// The name of the protocol that parameters are of.
pub uninterp spec fn protocol_name(params: NoiseParams) -> Seq<char>;

/// The public key that belongs to a private key in the protocol of this name.
pub uninterp spec fn derived_key(name: Seq<char>, private: Seq<u8>) -> Seq<u8>;

/// `str::parse` to `snow::params::NoiseParams`: whether it succeeds is the same function of
/// the name in every call, and the parameters keep the name. What else they hold follows
/// from it.
#[verifier::external_body]
fn parse_params(name: &str) -> (result: Result<NoiseParams, snow::Error>)
    ensures
        result is Ok == names_protocol(name@),
        result matches Ok(params) ==> protocol_name(params) == name@,
{
    name.parse()
}

/// `snow::Builder::generate_keypair`: a private key and the public key that belongs to it,
/// which the protocol's curve derives from it. The private key is random, and nothing is
/// said of it; nor of whether there are any keys, which is up to the system.
#[verifier::external_body]
fn generate_keypair(params: NoiseParams) -> (result: Result<(Vec<u8>, Vec<u8>), snow::Error>)
    ensures
        result matches Ok(keys) ==> keys.1@ == derived_key(protocol_name(params), keys.0@),
{
    let keypair = Builder::new(params).generate_keypair()?;
    Ok((keypair.private, keypair.public))
}

/// `std::fmt::Display` of `snow::Error`: a text for a reader. Nothing is said of it.
#[verifier::external_body]
fn error_text(error: &snow::Error) -> (text: String) {
    format!("{error}")
}

/// Why credentials cannot be used.
#[derive(Debug, PartialEq, Eq)]
pub enum CredentialError {
    Unavailable(String),
    Corrupt(String),
    Crypto(String),
}

impl CredentialError {
    /// The text for a reader.
    pub open spec fn wording(&self) -> Seq<char> {
        match self {
            CredentialError::Unavailable(message) => "secure credential store: "@ + message@,
            CredentialError::Corrupt(message) => "stored v5 credentials are invalid: "@ + message@,
            CredentialError::Crypto(message) => "v5 identity setup failed: "@ + message@,
        }
    }

    pub fn message(&self) -> (message: String)
        ensures
            message@ == self.wording(),
    {
        match self {
            CredentialError::Unavailable(text) => {
                let mut message: String = "secure credential store: ".to_owned();
                message.append(text.as_str());
                message
            },
            CredentialError::Corrupt(text) => {
                let mut message: String = "stored v5 credentials are invalid: ".to_owned();
                message.append(text.as_str());
                message
            },
            CredentialError::Crypto(text) => {
                let mut message: String = "v5 identity setup failed: ".to_owned();
                message.append(text.as_str());
                message
            },
        }
    }
}

/// What credentials hold.
#[verifier::ext_equal]
pub struct CredentialsView {
    pub version: u8,
    pub private_key: Seq<u8>,
    pub public_key: Seq<u8>,
    pub phone_key: Option<Seq<u8>>,
    pub phone_name: Option<Seq<char>>,
}

pub struct Credentials {
    version: u8,
    private_key: [u8; 32],
    public_key: [u8; 32],
    paired_phone_public_key: Option<[u8; 32]>,
    paired_phone_name: Option<String>,
}

impl View for Credentials {
    type V = CredentialsView;

    closed spec fn view(&self) -> CredentialsView {
        CredentialsView {
            version: self.version,
            private_key: self.private_key@,
            public_key: self.public_key@,
            phone_key: match self.paired_phone_public_key {
                Some(key) => Some(key@),
                None => None,
            },
            phone_name: match self.paired_phone_name {
                Some(name) => Some(name@),
                None => None,
            },
        }
    }
}

/// Whether a key is nothing but zeros.
pub open spec fn is_null(key: Seq<u8>) -> bool {
    forall|i: int| 0 <= i < key.len() ==> #[trigger] key[i] == 0
}

impl CredentialsView {
    pub open spec fn valid(self) -> bool {
        self.version == STORE_VERSION && !is_null(self.private_key) && !is_null(self.public_key)
    }

    /// An identity without a phone.
    pub open spec fn unpaired(private_key: Seq<u8>, public_key: Seq<u8>) -> CredentialsView {
        CredentialsView {
            version: STORE_VERSION,
            private_key,
            public_key,
            phone_key: None,
            phone_name: None,
        }
    }
}

impl Credentials {
    /// Credentials as they were stored, to be validated before use.
    pub fn from_parts(
        version: u8,
        private_key: [u8; 32],
        public_key: [u8; 32],
        paired_phone_public_key: Option<[u8; 32]>,
        paired_phone_name: Option<String>,
    ) -> (credentials: Credentials)
        ensures
            credentials@ == (CredentialsView {
                version,
                private_key: private_key@,
                public_key: public_key@,
                phone_key: match paired_phone_public_key {
                    Some(key) => Some(key@),
                    None => None,
                },
                phone_name: match paired_phone_name {
                    Some(name) => Some(name@),
                    None => None,
                },
            }),
    {
        Credentials {
            version,
            private_key,
            public_key,
            paired_phone_public_key,
            paired_phone_name,
        }
    }

    pub fn version(&self) -> (version: u8)
        ensures
            version == self@.version,
    {
        self.version
    }

    pub fn private_key(&self) -> (key: &[u8; 32])
        ensures
            key@ == self@.private_key,
    {
        &self.private_key
    }

    pub fn public_key(&self) -> (key: &[u8; 32])
        ensures
            key@ == self@.public_key,
    {
        &self.public_key
    }

    pub fn paired_phone_public_key(&self) -> (key: Option<&[u8; 32]>)
        ensures
            match key {
                Some(key) => self@.phone_key == Some(key@),
                None => self@.phone_key is None,
            },
    {
        self.paired_phone_public_key.as_ref()
    }

    pub fn paired_phone_name(&self) -> (name: Option<&str>)
        ensures
            match name {
                Some(name) => self@.phone_name == Some(name@),
                None => self@.phone_name is None,
            },
    {
        match &self.paired_phone_name {
            Some(name) => Some(name.as_str()),
            None => None,
        }
    }

    pub fn is_paired(&self) -> (paired: bool)
        ensures
            paired == self@.phone_key is Some,
    {
        self.paired_phone_public_key.is_some()
    }

    pub fn authorize_phone(&mut self, public_key: [u8; 32], name: String)
        ensures
            final(self)@ == (CredentialsView {
                phone_key: Some(public_key@),
                phone_name: Some(name@),
                ..old(self)@
            }),
    {
        self.paired_phone_public_key = Some(public_key);
        self.paired_phone_name = Some(name);
    }

    /// Forgets the phone, and keeps the identity.
    pub fn forget_phone(&mut self)
        ensures
            final(self)@ == (CredentialsView { phone_key: None, phone_name: None, ..old(self)@ }),
    {
        if let Some(key) = &mut self.paired_phone_public_key {
            wipe(key);
        }
        self.paired_phone_public_key = None;
        self.paired_phone_name = None;
    }

    /// A new identity, without a phone: a random private key, and the public key that belongs
    /// to it. Whether there are any keys is up to the system.
    pub fn generate() -> (result: Result<Credentials, CredentialError>)
        ensures
            match result {
                Ok(credentials) => names_protocol(NOISE_NAME@) && credentials@
                    == CredentialsView::unpaired(
                    credentials@.private_key,
                    credentials@.public_key,
                ) && credentials@.private_key.len() == 32 && credentials@.public_key.len() == 32
                    && credentials@.public_key == derived_key(
                    NOISE_NAME@,
                    credentials@.private_key,
                ),
                Err(CredentialError::Crypto(message)) => if names_protocol(NOISE_NAME@) {
                    text::part_at(message@, "X25519 identity: "@, 0)
                } else {
                    text::part_at(message@, "Noise parameters: "@, 0)
                },
                Err(CredentialError::Corrupt(message)) => names_protocol(NOISE_NAME@) && (message@
                    == "private key length"@ || message@ == "public key length"@),
                Err(CredentialError::Unavailable(_)) => false,
            },
    {
        let params: NoiseParams = match parse_params(NOISE_NAME) {
            Ok(params) => params,
            Err(error) => {
                let mut message: String = "Noise parameters: ".to_owned();
                message.append(error_text(&error).as_str());
                assert(message@.subrange(0, "Noise parameters: "@.len() as int)
                    =~= "Noise parameters: "@);
                return Err(CredentialError::Crypto(message));
            },
        };
        match generate_keypair(params) {
            Ok((private, public)) => Credentials::from_keypair(&private, &public),
            Err(error) => {
                let mut message: String = "X25519 identity: ".to_owned();
                message.append(error_text(&error).as_str());
                assert(message@.subrange(0, "X25519 identity: "@.len() as int)
                    =~= "X25519 identity: "@);
                Err(CredentialError::Crypto(message))
            },
        }
    }

    /// An identity from a pair of keys, which must have their length.
    pub fn from_keypair(private: &Vec<u8>, public: &Vec<u8>) -> (result: Result<
        Credentials,
        CredentialError,
    >)
        ensures
            match result {
                Ok(credentials) => private@.len() == 32 && public@.len() == 32 && credentials@
                    == CredentialsView::unpaired(private@, public@),
                Err(CredentialError::Corrupt(message)) => (private@.len() != 32 && message@
                    == "private key length"@) || (private@.len() == 32 && public@.len() != 32
                    && message@ == "public key length"@),
                Err(_) => false,
            },
    {
        if private.len() != 32 {
            return Err(CredentialError::Corrupt("private key length".to_owned()));
        }
        if public.len() != 32 {
            return Err(CredentialError::Corrupt("public key length".to_owned()));
        }
        Ok(
            Credentials::from_parts(
                STORE_VERSION,
                to_array::<32>(private.as_slice()),
                to_array::<32>(public.as_slice()),
                None,
                None,
            ),
        )
    }

    /// Checks the version and that neither key is null.
    pub fn validate(&self) -> (result: Result<(), CredentialError>)
        ensures
            match result {
                Ok(()) => self@.valid(),
                Err(CredentialError::Corrupt(message)) => !self@.valid() && message@ == if self@.version
                    != STORE_VERSION {
                    "unsupported credential version "@ + text::decimal(self@.version as nat)
                } else {
                    "identity contains a null key"@
                },
                Err(_) => false,
            },
    {
        if self.version != STORE_VERSION {
            let mut message: String = "unsupported credential version ".to_owned();
            push_decimal(&mut message, self.version as u128);
            return Err(CredentialError::Corrupt(message));
        }
        if all_zero(&self.private_key) || all_zero(&self.public_key) {
            return Err(CredentialError::Corrupt("identity contains a null key".to_owned()));
        }
        Ok(())
    }
}

impl Drop for Credentials {
    /// Erases the private key.
    fn drop(&mut self)
        opens_invariants none
        no_unwind
    {
        wipe(&mut self.private_key);
    }
}

fn all_zero(key: &[u8; 32]) -> (null: bool)
    ensures
        null == is_null(key@),
{
    let mut i: usize = 0;
    while i < 32
        invariant
            i <= 32,
            forall|j: int| 0 <= j < i ==> #[trigger] key@[j] == 0,
        decreases 32 - i,
    {
        if key[i] != 0 {
            return false;
        }
        i = i + 1;
    }
    true
}

/// Judges how many records a store holds: none, the one, or too many.
pub fn stored_record(count: usize) -> (result: Result<bool, CredentialError>)
    ensures
        match result {
            Ok(found) => count <= 1 && found == (count == 1),
            Err(CredentialError::Corrupt(message)) => count > 1 && message@
                == "multiple Secret Service identity records exist"@,
            Err(_) => false,
        },
{
    if count > 1 {
        return Err(
            CredentialError::Corrupt("multiple Secret Service identity records exist".to_owned()),
        );
    }
    Ok(count == 1)
}

/// Forgetting the phone keeps the identity valid, and pairing does too.
pub proof fn pairing_keeps_the_identity(credentials: CredentialsView, key: Seq<u8>, name: Seq<char>)
    ensures
        (CredentialsView { phone_key: None, phone_name: None, ..credentials }).valid()
            == credentials.valid(),
        (CredentialsView { phone_key: Some(key), phone_name: Some(name), ..credentials }).valid()
            == credentials.valid(),
{
}

/// An identity is valid where it is of the version that is stored, and neither of its keys is
/// nothing but zeros; the phone that it is paired with does not matter.
pub proof fn valid_identities_have_keys(credentials: CredentialsView, private: int, public: int)
    requires
        0 <= private < credentials.private_key.len(),
        0 <= public < credentials.public_key.len(),
    ensures
        credentials.version == 1 && credentials.private_key[private] != 0
            && credentials.public_key[public] != 0 ==> credentials.valid(),
        credentials.valid() ==> credentials.version == 1,
        credentials.valid() ==> exists|i: int|
            0 <= i < credentials.private_key.len() && #[trigger] credentials.private_key[i] != 0,
        credentials.valid() ==> exists|i: int|
            0 <= i < credentials.public_key.len() && #[trigger] credentials.public_key[i] != 0,
{
}

} // verus!
