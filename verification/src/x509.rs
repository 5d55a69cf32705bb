//! Key pairs, certificate parameters and certificates of `rcgen`, each held
//! together with what is known of it: the PEM text of a key pair, the subject
//! names of parameters, and for a certificate its PEM text, its subject names,
//! the key pair it certifies and the key pair that signed it (each key pair
//! named by its PEM text). Only the functions of this module make these values,
//! so what they record is what `rcgen` was asked to do.

use crate::cert::{profile_view, CaFlag, CaProfile, KeyUsage, ProfileView};
use crate::text::all_ascii;
use rcgen::{
    BasicConstraints, Certificate, CertificateParams, DnType, IsCa, KeyPair, KeyUsagePurpose,
};
use vstd::prelude::*;

verus! {

/// An X.509 certificate of `rcgen`.
#[verifier::external_type_specification]
#[verifier::external_body]
pub struct ExCertificate(Certificate);

/// A key pair of `rcgen`.
#[verifier::external_type_specification]
#[verifier::external_body]
pub struct ExKeyPair(KeyPair);

/// Certificate parameters of `rcgen`.
#[verifier::external_type_specification]
#[verifier::external_body]
pub struct ExCertificateParams(CertificateParams);

/// The error type of `rcgen`.
#[verifier::external_type_specification]
#[verifier::external_body]
pub struct ExRcgenError(rcgen::Error);

/// Text that begins as a PEM block labelled `label` does:
/// `-----BEGIN {label}-----`.
pub open spec fn pem_begins(text: Seq<char>, label: Seq<char>) -> bool {
    let head = "-----BEGIN "@ + label + "-----"@;
    head.len() <= text.len() && text.take(head.len() as int) == head
}

/// Whether `rcgen::KeyPair::from_pem` reads a key pair from `pem`.
pub uninterp spec fn key_pem_accepted(pem: Seq<char>) -> bool;

/// What `rcgen::CertificateParams::from_ca_cert_pem` reads from `pem`: nothing
/// when it refuses the text, else the subject alternative names of the
/// certificate in it.
pub uninterp spec fn ca_cert_read(pem: Seq<char>) -> Option<Seq<Seq<char>>>;

/// A key pair with its PEM text.
pub struct Key {
    pair: KeyPair,
    pem: String,
}

impl Key {
    /// The PEM text of the key pair: the one it was generated as, or read from.
    pub closed spec fn text(&self) -> Seq<char> {
        self.pem@
    }

    /// The PEM text of the key pair.
    pub fn pem(&self) -> (r: &str)
        ensures
            r@ == self.text(),
    {
        self.pem.as_str()
    }
}

/// Certificate parameters with the subject names they hold.
pub struct Params {
    params: CertificateParams,
    names: Ghost<Seq<Seq<char>>>,
    profile: Ghost<Option<ProfileView>>,
}

impl Params {
    /// The subject alternative names of these parameters.
    pub closed spec fn names(&self) -> Seq<Seq<char>> {
        self.names@
    }

    /// The CA profile these parameters were made from, when they were made
    /// from one.
    pub closed spec fn profile(&self) -> Option<ProfileView> {
        self.profile@
    }
}

/// A signed certificate with its PEM text.
pub struct Cert {
    cert: Certificate,
    pem: String,
    names: Ghost<Seq<Seq<char>>>,
    profile: Ghost<Option<ProfileView>>,
    subject_key: Ghost<Seq<char>>,
    issuer_key: Ghost<Seq<char>>,
}

impl Cert {
    /// The PEM text of the certificate.
    pub closed spec fn text(&self) -> Seq<char> {
        self.pem@
    }

    /// The subject alternative names of the parameters it was made from.
    pub closed spec fn names(&self) -> Seq<Seq<char>> {
        self.names@
    }

    /// The CA profile of the parameters it was made from, when they were
    /// made from one.
    pub closed spec fn profile(&self) -> Option<ProfileView> {
        self.profile@
    }

    /// The PEM text of the key pair whose public key it certifies.
    pub closed spec fn subject_key(&self) -> Seq<char> {
        self.subject_key@
    }

    /// The PEM text of the key pair that signed it.
    pub closed spec fn issuer_key(&self) -> Seq<char> {
        self.issuer_key@
    }

    /// The PEM text of the certificate.
    pub fn pem(&self) -> (r: &str)
        ensures
            r@ == self.text(),
    {
        self.pem.as_str()
    }
}

/// `rcgen::KeyPair::generate`, then `KeyPair::serialize_pem`: a fresh random
/// key pair with its PKCS#8 PEM text, a block labelled `PRIVATE KEY` as the
/// `pem` crate's `encode_config` writes it. A generated key pair is held
/// locally, so serializing it cannot meet the panic that `serialize_der` keeps
/// for remote key pairs. Nothing is stated of the key itself, which is random,
/// nor of when generation fails.
#[verifier::external_body]
pub(crate) fn generate_key_pair() -> (r: Result<Key, rcgen::Error>)
    ensures
        r matches Ok(k) ==> pem_begins(k.text(), "PRIVATE KEY"@),
{
    let pair = KeyPair::generate()?;
    let pem = pair.serialize_pem();
    Ok(Key { pair, pem })
}

/// `rcgen::KeyPair::from_pem`: the key pair held in `pem`, which it reads
/// exactly when `key_pem_accepted(pem)`; the key pair keeps `pem` as its text.
#[verifier::external_body]
pub(crate) fn parse_key_pair(pem: &str) -> (r: Result<Key, rcgen::Error>)
    ensures
        r is Ok <==> key_pem_accepted(pem@),
        r matches Ok(k) ==> k.text() == pem@,
{
    let pair = KeyPair::from_pem(pem)?;
    Ok(Key { pair, pem: pem.to_string() })
}

/// `rcgen::CertificateParams::from_ca_cert_pem`: the parameters of the CA
/// certificate in `pem`, read exactly when `ca_cert_read(pem)` is not `None`,
/// with the subject names it gives.
#[verifier::external_body]
pub(crate) fn parse_ca_params(pem: &str) -> (r: Result<Params, rcgen::Error>)
    ensures
        r is Ok <==> ca_cert_read(pem@) is Some,
        r matches Ok(p) ==> Some(p.names()) == ca_cert_read(pem@) && p.profile() is None,
{
    let params = CertificateParams::from_ca_cert_pem(pem)?;
    Ok(Params { params, names: Ghost(ca_cert_read(pem@)->0), profile: Ghost(None) })
}

/// `rcgen::CertificateParams` for a CA certificate with the values of
/// `profile`: `rcgen`'s defaults (`CertificateParams::default`, which hold no
/// subject alternative name), the CA flag and the key usages of `profile` one
/// for one, and a subject made of the common name of `profile` alone (it
/// takes the place of the one common name that the defaults hold).
#[verifier::external_body]
pub(crate) fn ca_params(profile: &CaProfile) -> (r: Params)
    ensures
        r.names() == Seq::<Seq<char>>::empty(),
        r.profile() == Some(profile_view(*profile)),
{
    let mut params = CertificateParams::default();
    for usage in profile.key_usages.iter() {
        params.key_usages.push(match usage {
            KeyUsage::KeyCertSign => KeyUsagePurpose::KeyCertSign,
            KeyUsage::CrlSign => KeyUsagePurpose::CrlSign,
            KeyUsage::DigitalSignature => KeyUsagePurpose::DigitalSignature,
        });
    }
    params.is_ca = match profile.is_ca {
        CaFlag::NoCa => IsCa::NoCa,
        CaFlag::Unconstrained => IsCa::Ca(BasicConstraints::Unconstrained),
        CaFlag::Constrained(n) => IsCa::Ca(BasicConstraints::Constrained(n)),
    };
    params.distinguished_name.push(DnType::CommonName, profile.common_name.as_str());
    Params { params, names: Ghost(Seq::empty()), profile: Ghost(Some(profile_view(*profile))) }
}

/// `rcgen::CertificateParams::new` for the single subject name `domain`. Its
/// source accepts every IP address and every ASCII name, so an ASCII domain
/// gives parameters.
#[verifier::external_body]
pub(crate) fn domain_cert_params(domain: String) -> (r: Result<Params, rcgen::Error>)
    ensures
        all_ascii(domain@) ==> r is Ok,
        r matches Ok(p) ==> p.names() == seq![domain@] && p.profile() is None,
{
    let names = Ghost(seq![domain@]);
    let params = CertificateParams::new(vec![domain])?;
    Ok(Params { params, names, profile: Ghost(None) })
}

/// `rcgen::CertificateParams::self_signed`, then `Certificate::pem`: the
/// certificate for `params` and the public key of `key`, signed with `key`,
/// and its PEM text, a block labelled `CERTIFICATE`. The signature is random;
/// when signing fails is not stated.
#[verifier::external_body]
pub(crate) fn self_sign(params: Params, key: &Key) -> (r: Result<Cert, rcgen::Error>)
    ensures
        r matches Ok(c) ==> {
            &&& c.names() == params.names()
            &&& c.profile() == params.profile()
            &&& c.subject_key() == key.text()
            &&& c.issuer_key() == key.text()
            &&& pem_begins(c.text(), "CERTIFICATE"@)
        },
{
    let (names, profile) = (params.names, params.profile);
    let cert = params.params.self_signed(&key.pair)?;
    let pem = cert.pem();
    Ok(Cert { cert, pem, names, profile, subject_key: Ghost(key.text()), issuer_key: Ghost(key.text()) })
}

/// `rcgen::CertificateParams::signed_by`, then `Certificate::pem`: the
/// certificate for `params` and the public key of `key`, signed by
/// `issuer_key` in the name of `issuer`, and its PEM text, a block labelled
/// `CERTIFICATE`. The signature is random; when signing fails is not stated.
#[verifier::external_body]
pub(crate) fn sign_cert(params: Params, key: &Key, issuer: &Cert, issuer_key: &Key) -> (r: Result<
    Cert,
    rcgen::Error,
>)
    ensures
        r matches Ok(c) ==> {
            &&& c.names() == params.names()
            &&& c.profile() == params.profile()
            &&& c.subject_key() == key.text()
            &&& c.issuer_key() == issuer_key.text()
            &&& pem_begins(c.text(), "CERTIFICATE"@)
        },
{
    let (names, profile) = (params.names, params.profile);
    let cert = params.params.signed_by(&key.pair, &issuer.cert, &issuer_key.pair)?;
    let pem = cert.pem();
    Ok(Cert { cert, pem, names, profile, subject_key: Ghost(key.text()), issuer_key: Ghost(issuer_key.text()) })
}

} // verus!
