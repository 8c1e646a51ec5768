//! A server certificate verifier that verifies nothing.
use vstd::prelude::*;

verus! {

/// The signature schemes of TLS that the verifier offers.
#[derive(Clone, Copy, Debug, PartialEq, Eq, Structural)]
pub enum SignatureScheme {
    RsaPkcs1Sha1,
    EcdsaSha1Legacy,
    RsaPkcs1Sha256,
    EcdsaNistp256Sha256,
    RsaPkcs1Sha384,
    EcdsaNistp384Sha384,
    RsaPkcs1Sha512,
    EcdsaNistp521Sha512,
    RsaPssSha256,
    RsaPssSha384,
    RsaPssSha512,
    Ed25519,
}

/// A verifier that accepts every certificate and every signature.
#[derive(Debug)]
pub struct NoopVerifier;

/// The schemes that [`NoopVerifier`] offers, in order.
pub open spec fn offered_schemes() -> Seq<SignatureScheme> {
    seq![
        SignatureScheme::RsaPkcs1Sha1,
        SignatureScheme::EcdsaSha1Legacy,
        SignatureScheme::RsaPkcs1Sha256,
        SignatureScheme::EcdsaNistp256Sha256,
        SignatureScheme::RsaPkcs1Sha384,
        SignatureScheme::EcdsaNistp384Sha384,
        SignatureScheme::RsaPkcs1Sha512,
        SignatureScheme::EcdsaNistp521Sha512,
        SignatureScheme::RsaPssSha256,
        SignatureScheme::RsaPssSha384,
        SignatureScheme::RsaPssSha512,
        SignatureScheme::Ed25519,
    ]
}

impl NoopVerifier {
    /// Whether a server's certificate is accepted: it always is.
    pub fn verify_server_cert(
        &self,
        _end_entity: &[u8],
        _intermediates: &[Vec<u8>],
        _server_name: &str,
        _ocsp: &[u8],
        _now: u64,
    ) -> (accepted: bool)
        ensures
            accepted,
    {
        true
    }

    /// Whether a signature of a TLS 1.2 handshake is accepted: it always is.
    pub fn verify_tls12_signature(
        &self,
        _message: &[u8],
        _cert: &[u8],
        _signature: &[u8],
    ) -> (accepted: bool)
        ensures
            accepted,
    {
        true
    }

    /// Whether a signature of a TLS 1.3 handshake is accepted: it always is.
    pub fn verify_tls13_signature(
        &self,
        _message: &[u8],
        _cert: &[u8],
        _signature: &[u8],
    ) -> (accepted: bool)
        ensures
            accepted,
    {
        true
    }

    /// The signature schemes that are offered to the server.
    pub fn supported_verify_schemes(&self) -> (schemes: Vec<SignatureScheme>)
        ensures
            schemes@ == offered_schemes(),
    {
        vec![
            SignatureScheme::RsaPkcs1Sha1,
            SignatureScheme::EcdsaSha1Legacy,
            SignatureScheme::RsaPkcs1Sha256,
            SignatureScheme::EcdsaNistp256Sha256,
            SignatureScheme::RsaPkcs1Sha384,
            SignatureScheme::EcdsaNistp384Sha384,
            SignatureScheme::RsaPkcs1Sha512,
            SignatureScheme::EcdsaNistp521Sha512,
            SignatureScheme::RsaPssSha256,
            SignatureScheme::RsaPssSha384,
            SignatureScheme::RsaPssSha512,
            SignatureScheme::Ed25519,
        ]
    }
}

/// The schemes that are offered, and their order.
pub proof fn law_offered_schemes()
    ensures
        offered_schemes().len() == 12,
        offered_schemes()[0] == SignatureScheme::RsaPkcs1Sha1,
        offered_schemes()[1] == SignatureScheme::EcdsaSha1Legacy,
        offered_schemes()[2] == SignatureScheme::RsaPkcs1Sha256,
        offered_schemes()[3] == SignatureScheme::EcdsaNistp256Sha256,
        offered_schemes()[4] == SignatureScheme::RsaPkcs1Sha384,
        offered_schemes()[5] == SignatureScheme::EcdsaNistp384Sha384,
        offered_schemes()[6] == SignatureScheme::RsaPkcs1Sha512,
        offered_schemes()[7] == SignatureScheme::EcdsaNistp521Sha512,
        offered_schemes()[8] == SignatureScheme::RsaPssSha256,
        offered_schemes()[9] == SignatureScheme::RsaPssSha384,
        offered_schemes()[10] == SignatureScheme::RsaPssSha512,
        offered_schemes()[11] == SignatureScheme::Ed25519,
{
}

} // verus!
