//! The certificates and the private key of a server, as files in PEM form hold them.
use vstd::prelude::*;

verus! {

/// Why a file gives no certificates or no private key.
#[derive(Clone, Copy, Debug, PartialEq, Eq, Structural)]
pub enum PemError {
    Certs,
    NoCerts,
    Pkcs8Key,
    RsaKey,
    EcKey,
    NoKey,
}

impl PemError {
    /// What went wrong, up to the name of the file.
    pub open spec fn told(self) -> Seq<char> {
        match self {
            PemError::Certs => "failed to read certs from "@,
            PemError::NoCerts => "no certs in "@,
            PemError::Pkcs8Key => "failed to read private key from "@,
            PemError::RsaKey => "failed to read rsa private key from "@,
            PemError::EcKey => "failed to read ec private key from "@,
            PemError::NoKey => "no private key found in "@,
        }
    }

    /// The error in words, of a file with this name.
    pub fn text(&self, path: &str) -> (r: String)
        ensures
            r@ == self.told() + path@,
    {
        let told: &'static str = match self {
            PemError::Certs => "failed to read certs from ",
            PemError::NoCerts => "no certs in ",
            PemError::Pkcs8Key => "failed to read private key from ",
            PemError::RsaKey => "failed to read rsa private key from ",
            PemError::EcKey => "failed to read ec private key from ",
            PemError::NoKey => "no private key found in ",
        };
        let mut out: String = told.to_owned();
        out.append(path);
        out
    }
}

/// A private key in DER form, by the standard that says how it is laid out: PKCS #8, PKCS #1 for an
/// RSA key alone, SEC 1 for one of an elliptic curve alone.
#[derive(Debug)]
pub enum KeyDer {
    Pkcs8(Vec<u8>),
    Pkcs1(Vec<u8>),
    Sec1(Vec<u8>),
}

/// What [`KeyDer`] holds.
#[verifier::ext_equal]
pub enum KeyDerView {
    Pkcs8(Seq<u8>),
    Pkcs1(Seq<u8>),
    Sec1(Seq<u8>),
}

impl DeepView for KeyDer {
    type V = KeyDerView;

    open spec fn deep_view(&self) -> KeyDerView {
        match self {
            KeyDer::Pkcs8(der) => KeyDerView::Pkcs8(der@),
            KeyDer::Pkcs1(der) => KeyDerView::Pkcs1(der@),
            KeyDer::Sec1(der) => KeyDerView::Sec1(der@),
        }
    }
}

/// A result, seen through what its value holds.
pub open spec fn loaded<T: DeepView>(r: Result<T, PemError>) -> Result<T::V, PemError> {
    match r {
        Ok(value) => Ok(value.deep_view()),
        Err(error) => Err(error),
    }
}

/// The certificates in a file, in order, unless a section of the file cannot be read.
pub uninterp spec fn certs_in(pem: Seq<u8>) -> Option<Seq<Seq<u8>>>;

/// The PKCS #8 keys in a file, in order, unless a section of the file cannot be read.
pub uninterp spec fn pkcs8_in(pem: Seq<u8>) -> Option<Seq<Seq<u8>>>;

/// The PKCS #1 keys in a file, in order, unless a section of the file cannot be read.
pub uninterp spec fn rsa_in(pem: Seq<u8>) -> Option<Seq<Seq<u8>>>;

/// The SEC 1 keys in a file, in order, unless a section of the file cannot be read.
pub uninterp spec fn ec_in(pem: Seq<u8>) -> Option<Seq<Seq<u8>>>;

/// `rustls_pemfile::certs` yields the contents of the sections `CERTIFICATE` one after the other,
/// and an error at a section that it cannot read. They depend on the bytes alone; what makes a
/// section readable is not stated.
#[verifier::external_body]
fn read_certs(pem: &Vec<u8>) -> (r: Option<Vec<Vec<u8>>>)
    ensures
        r.deep_view() == certs_in(pem@),
{
    rustls_pemfile::certs(&mut pem.as_slice()).map(|c| c.ok().map(|c| c.to_vec())).collect()
}

/// `rustls_pemfile::pkcs8_private_keys` yields the contents of the sections `PRIVATE KEY` one after
/// the other, and an error at a section that it cannot read. They depend on the bytes alone; what
/// makes a section readable is not stated.
#[verifier::external_body]
fn read_pkcs8_keys(pem: &Vec<u8>) -> (r: Option<Vec<Vec<u8>>>)
    ensures
        r.deep_view() == pkcs8_in(pem@),
{
    rustls_pemfile::pkcs8_private_keys(&mut pem.as_slice())
        .map(|key| key.ok().map(|key| key.secret_pkcs8_der().to_vec()))
        .collect()
}

/// `rustls_pemfile::rsa_private_keys` yields the contents of the sections `RSA PRIVATE KEY` one
/// after the other, and an error at a section that it cannot read. They depend on the bytes alone;
/// what makes a section readable is not stated.
#[verifier::external_body]
fn read_rsa_keys(pem: &Vec<u8>) -> (r: Option<Vec<Vec<u8>>>)
    ensures
        r.deep_view() == rsa_in(pem@),
{
    rustls_pemfile::rsa_private_keys(&mut pem.as_slice())
        .map(|key| key.ok().map(|key| key.secret_pkcs1_der().to_vec()))
        .collect()
}

/// `rustls_pemfile::ec_private_keys` yields the contents of the sections `EC PRIVATE KEY` one after
/// the other, and an error at a section that it cannot read. They depend on the bytes alone; what
/// makes a section readable is not stated.
#[verifier::external_body]
fn read_ec_keys(pem: &Vec<u8>) -> (r: Option<Vec<Vec<u8>>>)
    ensures
        r.deep_view() == ec_in(pem@),
{
    rustls_pemfile::ec_private_keys(&mut pem.as_slice())
        .map(|key| key.ok().map(|key| key.secret_sec1_der().to_vec()))
        .collect()
}

/// The certificates that are taken from those that were read: all of them, in order, if there is
/// one.
pub open spec fn certs_of(read: Option<Seq<Seq<u8>>>) -> Result<Seq<Seq<u8>>, PemError> {
    match read {
        None => Err(PemError::Certs),
        Some(certs) => if certs.len() == 0 {
            Err(PemError::NoCerts)
        } else {
            Ok(certs)
        },
    }
}

/// The key that is taken from those that were read: the last PKCS #8 key, else the last PKCS #1
/// key, else the last SEC 1 key. Keys of a kind count as unreadable only where none of an earlier
/// kind was found.
pub open spec fn key_of(
    pkcs8: Option<Seq<Seq<u8>>>,
    rsa: Option<Seq<Seq<u8>>>,
    ec: Option<Seq<Seq<u8>>>,
) -> Result<KeyDerView, PemError> {
    if pkcs8 is None {
        Err(PemError::Pkcs8Key)
    } else if pkcs8->0.len() > 0 {
        Ok(KeyDerView::Pkcs8(pkcs8->0.last()))
    } else if rsa is None {
        Err(PemError::RsaKey)
    } else if rsa->0.len() > 0 {
        Ok(KeyDerView::Pkcs1(rsa->0.last()))
    } else if ec is None {
        Err(PemError::EcKey)
    } else if ec->0.len() > 0 {
        Ok(KeyDerView::Sec1(ec->0.last()))
    } else {
        Err(PemError::NoKey)
    }
}

/// Takes the certificates from those that were read, if any were.
pub fn choose_certs(read: Option<Vec<Vec<u8>>>) -> (r: Result<Vec<Vec<u8>>, PemError>)
    ensures
        loaded(r) == certs_of(read.deep_view()),
{
    match read {
        None => Err(PemError::Certs),
        Some(certs) => if certs.len() == 0 {
            Err(PemError::NoCerts)
        } else {
            Ok(certs)
        },
    }
}

/// The last of the keys of one kind that were read, if there is one, and the error where they could
/// not be read.
fn last_key(read: Option<Vec<Vec<u8>>>, unreadable: PemError) -> (r: Result<
    Option<Vec<u8>>,
    PemError,
>)
    ensures
        match read {
            None => r == Err::<Option<Vec<u8>>, PemError>(unreadable),
            Some(keys) => match r {
                Err(_) => false,
                Ok(None) => keys.deep_view().len() == 0,
                Ok(Some(key)) => keys.deep_view().len() > 0 && key@ == keys.deep_view().last(),
            },
        },
{
    match read {
        None => Err(unreadable),
        Some(keys) => {
            let mut keys: Vec<Vec<u8>> = keys;
            let ghost before = keys;
            let key: Option<Vec<u8>> = keys.pop();
            proof {
                if key is Some {
                    assert(key->0@ =~= before.deep_view().last());
                }
            }
            Ok(key)
        },
    }
}

/// Takes the private key from those that were read.
pub fn choose_key(
    pkcs8: Option<Vec<Vec<u8>>>,
    rsa: Option<Vec<Vec<u8>>>,
    ec: Option<Vec<Vec<u8>>>,
) -> (r: Result<KeyDer, PemError>)
    ensures
        loaded(r) == key_of(pkcs8.deep_view(), rsa.deep_view(), ec.deep_view()),
{
    match last_key(pkcs8, PemError::Pkcs8Key) {
        Err(error) => {
            return Err(error);
        },
        Ok(Some(key)) => {
            return Ok(KeyDer::Pkcs8(key));
        },
        Ok(None) => {},
    }
    match last_key(rsa, PemError::RsaKey) {
        Err(error) => {
            return Err(error);
        },
        Ok(Some(key)) => {
            return Ok(KeyDer::Pkcs1(key));
        },
        Ok(None) => {},
    }
    match last_key(ec, PemError::EcKey) {
        Err(error) => Err(error),
        Ok(Some(key)) => Ok(KeyDer::Sec1(key)),
        Ok(None) => Err(PemError::NoKey),
    }
}

/// The certificates that a file in PEM form holds.
pub fn load_certs(pem: &Vec<u8>) -> (r: Result<Vec<Vec<u8>>, PemError>)
    ensures
        loaded(r) == certs_of(certs_in(pem@)),
{
    choose_certs(read_certs(pem))
}

/// The private key that a file in PEM form holds.
pub fn load_private_key(pem: &Vec<u8>) -> (r: Result<KeyDer, PemError>)
    ensures
        loaded(r) == key_of(pkcs8_in(pem@), rsa_in(pem@), ec_in(pem@)),
{
    choose_key(read_pkcs8_keys(pem), read_rsa_keys(pem), read_ec_keys(pem))
}

/// A key that is taken is one of those that were read, of the kind that it is taken for, and where
/// all of them could be read and there is one, one is taken.
pub proof fn law_key_was_read(
    pkcs8: Option<Seq<Seq<u8>>>,
    rsa: Option<Seq<Seq<u8>>>,
    ec: Option<Seq<Seq<u8>>>,
)
    ensures
        match key_of(pkcs8, rsa, ec) {
            Ok(KeyDerView::Pkcs8(der)) => pkcs8 is Some && pkcs8->0.contains(der),
            Ok(KeyDerView::Pkcs1(der)) => rsa is Some && rsa->0.contains(der),
            Ok(KeyDerView::Sec1(der)) => ec is Some && ec->0.contains(der),
            Err(_) => pkcs8 is None || rsa is None || ec is None || pkcs8->0.len() + rsa->0.len()
                + ec->0.len() == 0,
        },
{
}

/// The certificates taken are all of those that were read, in order, and there is at least one.
pub proof fn law_certs_are_those_read(read: Option<Seq<Seq<u8>>>)
    ensures
        certs_of(read) matches Ok(certs) ==> read == Some(certs) && certs.len() > 0,
        read is None ==> certs_of(read) == Err::<Seq<Seq<u8>>, PemError>(PemError::Certs),
        read matches Some(certs) ==> (certs.len() == 0 ==> certs_of(read) == Err::<
            Seq<Seq<u8>>,
            PemError,
        >(PemError::NoCerts)),
{
}

/// Of the keys of one kind the last is taken, and a kind of key is considered only where there is
/// none of the kinds before it: first PKCS #8, then PKCS #1, then SEC 1.
pub proof fn law_last_key_is_taken(
    pkcs8: Seq<Seq<u8>>,
    rsa: Seq<Seq<u8>>,
    ec: Seq<Seq<u8>>,
    key: Seq<u8>,
)
    ensures
        key_of(Some(pkcs8.push(key)), Some(rsa), Some(ec)) == Ok::<KeyDerView, PemError>(
            KeyDerView::Pkcs8(key),
        ),
        key_of(Some(Seq::empty()), Some(rsa.push(key)), Some(ec)) == Ok::<KeyDerView, PemError>(
            KeyDerView::Pkcs1(key),
        ),
        key_of(Some(Seq::empty()), Some(Seq::empty()), Some(ec.push(key))) == Ok::<
            KeyDerView,
            PemError,
        >(KeyDerView::Sec1(key)),
        key_of(Some(Seq::empty()), Some(Seq::empty()), Some(Seq::empty())) == Err::<
            KeyDerView,
            PemError,
        >(PemError::NoKey),
        key_of(None, Some(rsa), Some(ec)) == Err::<KeyDerView, PemError>(PemError::Pkcs8Key),
        key_of(Some(Seq::empty()), None, Some(ec)) == Err::<KeyDerView, PemError>(PemError::RsaKey),
        key_of(Some(Seq::empty()), Some(Seq::empty()), None) == Err::<KeyDerView, PemError>(
            PemError::EcKey,
        ),
{
}

} // verus!
