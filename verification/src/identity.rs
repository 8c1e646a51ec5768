//! The certificate and the private key of the tunnel's server end.
use vstd::prelude::*;

verus! {

/// Where the server's certificate and key come from.
pub enum IdentitySource {
    /// From these two PEM files.
    Files { cert: String, key: String },
    /// They are made at start.
    SelfSigned,
}

/// A certificate was named without its key.
pub struct MissingKey;

/// A certificate and its private key, both in DER; the key is in PKCS #8.
pub struct Identity {
    pub cert: Vec<u8>,
    pub key: Vec<u8>,
}

/// Why there is no identity.
pub enum IdentityError {
    /// The certificates cannot be read.
    Certs,
    /// The key cannot be read.
    Key,
    /// There is no private key.
    NoKey,
    /// The private key, with this DER, is not in PKCS #8.
    UnsupportedKey(Vec<u8>),
    /// There is no certificate.
    NoCert,
    /// A certificate could not be made.
    NotMade,
}

/// What `rustls_pemfile::certs` finds in a PEM text: the DER of its certificates, or
/// nothing where the text is malformed.
pub uninterp spec fn pem_certs(pem: Seq<u8>) -> Option<Seq<Seq<u8>>>;

/// What `rustls_pemfile::private_key` finds in a PEM text, or nothing where the text is
/// malformed: of its first private key, if there is one, whether it is in PKCS #8, and its
/// DER.
pub uninterp spec fn pem_key(pem: Seq<u8>) -> Option<Option<(bool, Seq<u8>)>>;

/// The contents of a list of certificates.
pub open spec fn cert_views(certs: Seq<Vec<u8>>) -> Seq<Seq<u8>> {
    certs.map_values(|c: Vec<u8>| c@)
}

/// `rustls_pemfile::certs` on a PEM text: the DER of its certificates, in order, and an
/// error, of which only that it came is kept, where the text is malformed.
#[verifier::external_body]
fn certs_in(pem: &[u8]) -> (certs: Option<Vec<Vec<u8>>>)
    ensures
        match certs {
            Some(list) => pem_certs(pem@) == Some(cert_views(list@)),
            None => pem_certs(pem@) is None,
        },
{
    let mut reader = pem;
    let certs = rustls_pemfile::certs(&mut reader).collect::<Result<Vec<_>, _>>().ok()?;
    Some(certs.into_iter().map(|der| der.to_vec()).collect())
}

/// `rustls_pemfile::private_key` on a PEM text: its first private key, if there is one, and
/// an error, of which only that it came is kept, where the text is malformed. Of the key its
/// DER is kept, and whether it is in PKCS #8.
#[verifier::external_body]
fn key_in(pem: &[u8]) -> (key: Option<Option<(bool, Vec<u8>)>>)
    ensures
        match key {
            Some(Some((pkcs8, der))) => pem_key(pem@) == Some(Some((pkcs8, der@))),
            Some(None) => pem_key(pem@) == Some(None::<(bool, Seq<u8>)>),
            None => pem_key(pem@) is None,
        },
{
    let mut reader = pem;
    let key = rustls_pemfile::private_key(&mut reader).ok()?;
    Some(key.map(|k| {
        let pkcs8 = matches!(k, rustls::pki_types::PrivateKeyDer::Pkcs8(_));
        (pkcs8, k.secret_der().to_vec())
    }))
}

/// Whether `cert` and `key` are what `rcgen::generate_simple_self_signed` can give for `name`:
/// the DER of a certificate for `name`, signed with its own key, and the DER of that private
/// key in PKCS #8.
pub uninterp spec fn self_signed_for(name: Seq<char>, cert: Seq<u8>, key: Seq<u8>) -> bool;

/// `rcgen::generate_simple_self_signed` for one name: a fresh certificate for that name,
/// signed with its own key, and that private key in PKCS #8, both in DER; or an error, of
/// which only that it came is kept. The key is drawn at random, so it is left unsaid which of
/// the certificates for that name comes, and when one can be made.
#[verifier::external_body]
fn make_certificate(name: &str) -> (made: Option<(Vec<u8>, Vec<u8>)>)
    ensures
        made matches Some((cert, key)) ==> self_signed_for(name@, cert@, key@),
{
    let made = rcgen::generate_simple_self_signed(vec![name.to_string()]).ok()?;
    Some((made.cert.der().to_vec(), made.signing_key.serialize_der()))
}

/// Decides where the certificate and the key come from: from files where a certificate is
/// named, which then needs a key.
pub fn identity_source(cert: Option<String>, key: Option<String>) -> (r: Result<
    IdentitySource,
    MissingKey,
>)
    ensures
        match r {
            Ok(IdentitySource::Files { cert: c, key: k }) => cert == Some(c) && key == Some(k),
            Ok(IdentitySource::SelfSigned) => cert is None,
            Err(MissingKey) => cert is Some && key is None,
        },
{
    match cert {
        Some(cert) => match key {
            Some(key) => Ok(IdentitySource::Files { cert, key }),
            None => Err(MissingKey),
        },
        None => Ok(IdentitySource::SelfSigned),
    }
}

/// The certificates in a PEM text.
pub fn read_certs(pem: &[u8]) -> (r: Result<Vec<Vec<u8>>, IdentityError>)
    ensures
        match r {
            Ok(certs) => pem_certs(pem@) == Some(cert_views(certs@)),
            Err(e) => pem_certs(pem@) is None && e is Certs,
        },
{
    match certs_in(pem) {
        Some(certs) => Ok(certs),
        None => Err(IdentityError::Certs),
    }
}

/// What is wrong with a key that was found in a PEM text, if anything is.
pub open spec fn key_error(found: Option<Option<(bool, Seq<u8>)>>, e: IdentityError) -> bool {
    match found {
        None => e is Key,
        Some(None) => e is NoKey,
        Some(Some((pkcs8, der))) => {
            &&& !pkcs8
            &&& e matches IdentityError::UnsupportedKey(d)
            &&& d@ == der
        },
    }
}

/// What was found in a PEM text, with the DER as a sequence.
pub open spec fn key_view(found: Option<Option<(bool, Vec<u8>)>>) -> Option<
    Option<(bool, Seq<u8>)>,
> {
    match found {
        None => None,
        Some(None) => Some(None),
        Some(Some((pkcs8, der))) => Some(Some((pkcs8, der@))),
    }
}

/// The key to use of what was found in a PEM text.
pub fn choose_key(found: Option<Option<(bool, Vec<u8>)>>) -> (r: Result<Vec<u8>, IdentityError>)
    ensures
        match r {
            Ok(der) => key_view(found) == Some(Some((true, der@))),
            Err(e) => key_error(key_view(found), e),
        },
{
    match found {
        None => Err(IdentityError::Key),
        Some(None) => Err(IdentityError::NoKey),
        Some(Some((pkcs8, der))) => if pkcs8 {
            Ok(der)
        } else {
            Err(IdentityError::UnsupportedKey(der))
        },
    }
}

/// The private key in a PEM text.
pub fn read_key(pem: &[u8]) -> (r: Result<Vec<u8>, IdentityError>)
    ensures
        match r {
            Ok(der) => pem_key(pem@) == Some(Some((true, der@))),
            Err(e) => key_error(pem_key(pem@), e),
        },
{
    choose_key(key_in(pem))
}

/// The identity of the first certificate and the key.
pub fn first_identity(certs: Vec<Vec<u8>>, key: Vec<u8>) -> (r: Result<Identity, IdentityError>)
    ensures
        match r {
            Ok(identity) => certs@.len() > 0 && identity.cert == certs@[0] && identity.key == key,
            Err(e) => certs@.len() == 0 && e is NoCert,
        },
{
    let mut certs = certs;
    if certs.len() == 0 {
        return Err(IdentityError::NoCert);
    }
    let cert = certs.remove(0);
    Ok(Identity { cert, key })
}

/// The identity of a certificate and a key that were made, if they were.
pub fn made_identity(made: Option<(Vec<u8>, Vec<u8>)>) -> (r: Result<Identity, IdentityError>)
    ensures
        match r {
            Ok(identity) => made == Some((identity.cert, identity.key)),
            Err(e) => made is None && e is NotMade,
        },
{
    match made {
        Some((cert, key)) => Ok(Identity { cert, key }),
        None => Err(IdentityError::NotMade),
    }
}

/// A fresh identity: a certificate for the address 127.0.0.1, signed with its own key. The
/// key is drawn at random, so it is left unsaid which one comes, and when one can be made.
pub fn self_signed_identity() -> (r: Result<Identity, IdentityError>)
    ensures
        match r {
            Ok(identity) => self_signed_for("127.0.0.1"@, identity.cert@, identity.key@),
            Err(e) => e is NotMade,
        },
{
    made_identity(make_certificate("127.0.0.1"))
}

/// The contents of certificates are those of the certificates, one by one.
pub proof fn law_cert_views(certs: Seq<Vec<u8>>)
    ensures
        cert_views(certs).len() == certs.len(),
        forall|i: int| 0 <= i < certs.len() ==> #[trigger] cert_views(certs)[i] == certs[i]@,
{
}

/// What was found of a key is what the sequences say.
pub proof fn law_key_view(pkcs8: bool, der: Vec<u8>)
    ensures
        key_view(None) is None,
        key_view(Some(None)) == Some(None::<(bool, Seq<u8>)>),
        key_view(Some(Some((pkcs8, der)))) == Some(Some((pkcs8, der@))),
{
}

/// A text that cannot be read, one without a key, and a key that is not in PKCS #8 are the
/// errors, each its own; a key in PKCS #8 is none.
pub proof fn law_key_error(der: Seq<u8>, e: IdentityError)
    ensures
        key_error(None, e) <==> e is Key,
        key_error(Some(None), e) <==> e is NoKey,
        key_error(Some(Some((false, der))), e) <==> (e matches IdentityError::UnsupportedKey(d)
            && d@ == der),
        !key_error(Some(Some((true, der))), e),
{
}

} // verus!
