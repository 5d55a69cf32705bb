//! The certificate authority that signs a certificate for each intercepted
//! domain, and the cache of what it signed.

use crate::keyed::{entries_map, has_key, is_first_key, lemma_exists_first_key, lemma_first_key, lemma_push_new_key};
use crate::text::{all_ascii, copy_str, str_eq};
use crate::x509::{
    ca_cert_read, ca_params, domain_cert_params, generate_key_pair, key_pem_accepted,
    parse_ca_params, parse_key_pair, pem_begins, self_sign, sign_cert, Cert, Key,
};
use vstd::prelude::*;

verus! {

/// Why a CA could not be made or loaded, or a domain certificate issued.
#[derive(Debug, Clone, Copy, PartialEq, Eq, Structural)]
pub enum CertError {
    /// No key pair could be generated.
    KeyGeneration,
    /// The domain is not a name a certificate can hold.
    DomainParams,
    /// Signing the certificate with the CA key failed.
    Signing,
    /// Signing a new CA certificate with its own key failed.
    CaSigning,
    /// The stored CA certificate could not be read.
    CaCertificate,
    /// The stored CA key could not be read.
    CaKey,
    /// The stored CA could not be signed again with its key.
    CaResign,
}

impl CertError {
    /// What went wrong, in words.
    pub fn message(&self) -> (r: &'static str)
        ensures
            r@ == match *self {
                CertError::KeyGeneration => "Failed to generate a key pair"@,
                CertError::DomainParams => "Failed to create domain certificate params"@,
                CertError::Signing => "Failed to sign domain certificate"@,
                CertError::CaSigning => "Failed to sign CA certificate"@,
                CertError::CaCertificate => "Failed to parse existing CA certificate"@,
                CertError::CaKey => "Failed to parse existing CA key"@,
                CertError::CaResign => "Failed to re-sign CA certificate"@,
            },
    {
        match self {
            CertError::KeyGeneration => "Failed to generate a key pair",
            CertError::DomainParams => "Failed to create domain certificate params",
            CertError::Signing => "Failed to sign domain certificate",
            CertError::CaSigning => "Failed to sign CA certificate",
            CertError::CaCertificate => "Failed to parse existing CA certificate",
            CertError::CaKey => "Failed to parse existing CA key",
            CertError::CaResign => "Failed to re-sign CA certificate",
        }
    }
}

/// What a CA certificate's key may be used for.
#[derive(Debug, Clone, Copy, PartialEq, Eq, Structural)]
pub enum KeyUsage {
    KeyCertSign,
    CrlSign,
    DigitalSignature,
}

/// Whether a certificate may sign others, and how long a chain of CAs may
/// stand below it.
#[derive(Debug, Clone, Copy, PartialEq, Eq, Structural)]
pub enum CaFlag {
    /// Not a CA.
    NoCa,
    /// A CA with no limit on the chain below it.
    Unconstrained,
    /// A CA with at most this many CAs below it.
    Constrained(u8),
}

/// What a new root CA certificate says of itself.
pub struct CaProfile {
    /// The common name of its subject.
    pub common_name: String,
    /// Whether it is a CA.
    pub is_ca: CaFlag,
    /// The uses of its key.
    pub key_usages: Vec<KeyUsage>,
}

/// What a CA profile says: the common name, the CA flag and the key usages.
pub type ProfileView = (Seq<char>, CaFlag, Seq<KeyUsage>);

/// The values of a CA profile.
pub open spec fn profile_view(p: CaProfile) -> ProfileView {
    (p.common_name@, p.is_ca, p.key_usages@)
}

/// The profile of the proxy's root CA, as values.
pub open spec fn root_ca_profile_view() -> ProfileView {
    ("tokenJ Root CA"@, CaFlag::Unconstrained, seq![KeyUsage::KeyCertSign, KeyUsage::CrlSign, KeyUsage::DigitalSignature])
}

/// The profile of the proxy's root CA: the common name `tokenJ Root CA`, a CA
/// with no limit on the chain below it, a key for signing certificates and
/// revocation lists and for digital signatures.
pub fn root_ca_profile() -> (r: CaProfile)
    ensures
        r.common_name@ == "tokenJ Root CA"@,
        r.is_ca == CaFlag::Unconstrained,
        r.key_usages@ == seq![KeyUsage::KeyCertSign, KeyUsage::CrlSign, KeyUsage::DigitalSignature],
{
    let mut key_usages = Vec::new();
    key_usages.push(KeyUsage::KeyCertSign);
    key_usages.push(KeyUsage::CrlSign);
    key_usages.push(KeyUsage::DigitalSignature);
    CaProfile { common_name: copy_str("tokenJ Root CA"), is_ca: CaFlag::Unconstrained, key_usages }
}

/// One request for a domain's certificate, from the issued certificates
/// `before` to `after` with outcome `out` (`None` when issuing failed): a
/// domain issued before gets its certificate back and nothing changes; for a
/// new domain a new certificate is kept, and a failure keeps nothing.
pub open spec fn issue_step(
    before: Map<Seq<char>, (Seq<char>, Seq<char>)>,
    domain: Seq<char>,
    out: Option<(Seq<char>, Seq<char>)>,
    after: Map<Seq<char>, (Seq<char>, Seq<char>)>,
) -> bool {
    if before.contains_key(domain) {
        out == Some(before[domain]) && after == before
    } else {
        match out {
            Some(p) => after == before.insert(domain, p),
            None => after == before,
        }
    }
}

/// The PEM texts of one issued certificate and its key.
pub type PemPair = (String, String);

/// What a certificate records: its subject names, the PEM text of the key pair
/// it certifies, and the PEM text of the key pair that signed it.
pub type CertFacts = (Seq<Seq<char>>, Seq<char>, Seq<char>);

/// A certificate issued for a domain, with its key pair.
struct Issued {
    cert: Cert,
    key: Key,
}

/// A CA certificate with its key, and the certificates it has issued by domain.
pub struct CertManager {
    cert_dir: String,
    ca: Cert,
    ca_key: Key,
    issued: Vec<(String, Issued)>,
}

impl View for CertManager {
    /// Each domain a certificate was issued for, to the PEM texts of that
    /// certificate and its key.
    type V = Map<Seq<char>, (Seq<char>, Seq<char>)>;

    closed spec fn view(&self) -> Map<Seq<char>, (Seq<char>, Seq<char>)> {
        entries_map(self.entries())
    }
}

/// Every certificate the manager has issued names exactly its domain,
/// certifies the key pair handed out with it, and is signed by the CA's key.
pub open spec fn signed_by_ca(m: &CertManager) -> bool {
    &&& m.issued_facts().dom() == m@.dom()
    &&& forall|d: Seq<char>| #[trigger]
        m@.contains_key(d) ==> m.issued_facts()[d] == (seq![d], m@[d].1, m.ca_key_pem())
}

impl CertManager {
    closed spec fn entries(&self) -> Seq<(Seq<char>, (Seq<char>, Seq<char>))> {
        self.issued@.map_values(|e: (String, Issued)| (e.0@, (e.1.cert.text(), e.1.key.text())))
    }

    closed spec fn fact_entries(&self) -> Seq<(Seq<char>, CertFacts)> {
        self.issued@.map_values(
            |e: (String, Issued)|
                (e.0@, (e.1.cert.names(), e.1.cert.subject_key(), e.1.cert.issuer_key())),
        )
    }

    /// For each domain issued, what its certificate records.
    pub closed spec fn issued_facts(&self) -> Map<Seq<char>, CertFacts> {
        entries_map(self.fact_entries())
    }

    /// The directory that holds the CA files.
    pub closed spec fn dir(&self) -> Seq<char> {
        self.cert_dir@
    }

    /// The PEM text of the CA certificate, fixed when the manager is made.
    pub closed spec fn ca_pem(&self) -> Seq<char> {
        self.ca.text()
    }

    /// The PEM text of the CA's key pair, fixed when the manager is made.
    pub closed spec fn ca_key_pem(&self) -> Seq<char> {
        self.ca_key.text()
    }

    /// The CA profile the CA certificate was made from, when it was made
    /// from one (a new CA, not one loaded from PEM texts).
    pub closed spec fn ca_profile(&self) -> Option<ProfileView> {
        self.ca.profile()
    }

    /// What the CA certificate records.
    pub closed spec fn ca_facts(&self) -> CertFacts {
        (self.ca.names(), self.ca.subject_key(), self.ca.issuer_key())
    }

    /// The CA certificate is signed by its own key, which it certifies; every
    /// issued certificate names its domain, certifies its key and is signed by
    /// the CA's key; and every PEM text begins as its kind of block does.
    #[verifier::type_invariant]
    closed spec fn well_formed(self) -> bool {
        &&& pem_begins(self.ca.text(), "CERTIFICATE"@)
        &&& self.ca.subject_key() == self.ca_key.text()
        &&& self.ca.issuer_key() == self.ca_key.text()
        &&& forall|i: int|
            0 <= i < self.issued@.len() ==> {
                let e = #[trigger] self.issued@[i];
                &&& pem_begins(e.1.cert.text(), "CERTIFICATE"@)
                &&& pem_begins(e.1.key.text(), "PRIVATE KEY"@)
                &&& e.1.cert.names() == seq![e.0@]
                &&& e.1.cert.subject_key() == e.1.key.text()
                &&& e.1.cert.issuer_key() == self.ca_key.text()
            }
    }

    proof fn lemma_signed_by_ca(&self)
        requires
            self.well_formed(),
        ensures
            signed_by_ca(self),
    {
        let es = self.entries();
        let fs = self.fact_entries();
        assert forall|j: int| 0 <= j < fs.len() implies #[trigger] fs[j].0 == es[j].0 by {}
        assert forall|d: Seq<char>| has_key(es, d) == has_key(fs, d) by {
            if has_key(es, d) {
                let w = choose|i: int| 0 <= i < es.len() && es[i].0 == d;
                assert(fs[w].0 == d);
            }
            if has_key(fs, d) {
                let w = choose|i: int| 0 <= i < fs.len() && fs[i].0 == d;
                assert(es[w].0 == d);
            }
        }
        assert(self.issued_facts().dom() =~= self@.dom());
        assert forall|d: Seq<char>| #[trigger] self@.contains_key(d) implies self.issued_facts()[d]
            == (seq![d], self@[d].1, self.ca_key_pem()) by {
            lemma_exists_first_key(es, d);
            let w = choose|j: int| is_first_key(es, d, j);
            assert(is_first_key(fs, d, w));
            lemma_first_key(es, d, w);
            lemma_first_key(fs, d, w);
            assert(self.issued@[w].0@ == d);
        }
    }

    /// A manager for a CA certificate signed by its own key, with nothing
    /// issued yet.
    fn from_ca(cert_dir: String, ca: Cert, ca_key: Key) -> (r: Self)
        requires
            pem_begins(ca.text(), "CERTIFICATE"@),
            ca.subject_key() == ca_key.text(),
            ca.issuer_key() == ca_key.text(),
        ensures
            r@ == Map::<Seq<char>, (Seq<char>, Seq<char>)>::empty(),
            r.dir() == cert_dir@,
            r.ca_pem() == ca.text(),
            r.ca_key_pem() == ca_key.text(),
            r.ca_facts() == (ca.names(), ca_key.text(), ca_key.text()),
            r.ca_profile() == ca.profile(),
            signed_by_ca(&r),
    {
        let r = CertManager { cert_dir, ca, ca_key, issued: Vec::new() };
        assert(r@ =~= Map::<Seq<char>, (Seq<char>, Seq<char>)>::empty());
        proof {
            r.lemma_signed_by_ca();
        }
        r
    }

    /// A new root CA (see `root_ca_profile`) with a freshly generated key pair,
    /// and a manager for it with nothing issued yet; also the PEM texts of the
    /// CA certificate and of its key pair, to be stored. The certificate holds
    /// no subject name, is made from `root_ca_profile` (the common name
    /// `tokenJ Root CA`, an unconstrained CA, and its three key usages),
    /// certifies that key pair and is signed by it. Key
    /// generation and signing happen inside `rcgen` and may fail.
    pub fn new_ca(cert_dir: String) -> (r: Result<(CertManager, String, String), CertError>)
        ensures
            r matches Ok(t) ==> {
                &&& t.0@ == Map::<Seq<char>, (Seq<char>, Seq<char>)>::empty()
                &&& t.0.dir() == cert_dir@
                &&& t.0.ca_pem() == t.1@
                &&& t.0.ca_key_pem() == t.2@
                &&& t.0.ca_facts() == (Seq::<Seq<char>>::empty(), t.2@, t.2@)
                &&& t.0.ca_profile() == Some(root_ca_profile_view())
                &&& signed_by_ca(&t.0)
                &&& pem_begins(t.1@, "CERTIFICATE"@)
                &&& pem_begins(t.2@, "PRIVATE KEY"@)
            },
            r matches Err(e) ==> (e == CertError::KeyGeneration || e == CertError::CaSigning),
    {
        let key = match generate_key_pair() {
            Ok(k) => k,
            Err(_) => return Err(CertError::KeyGeneration),
        };
        let profile = root_ca_profile();
        let params = ca_params(&profile);
        let cert = match self_sign(params, &key) {
            Ok(c) => c,
            Err(_) => return Err(CertError::CaSigning),
        };
        let ca_pem = copy_str(cert.pem());
        let key_pem = copy_str(key.pem());
        let m = CertManager::from_ca(cert_dir, cert, key);
        Ok((m, ca_pem, key_pem))
    }

    /// A manager, with nothing issued yet, for the CA stored as the PEM texts
    /// of its certificate and of its key pair: the stored certificate's
    /// parameters are signed again with the stored key pair, which becomes the
    /// CA's key. Reading the certificate and reading the key pair depend on
    /// the texts alone (`ca_cert_read`, `key_pem_accepted`), and are tried in
    /// that order; signing happens inside `rcgen` and may fail.
    pub fn from_pem(cert_dir: String, ca_cert_pem: &str, ca_key_pem: &str) -> (r: Result<
        CertManager,
        CertError,
    >)
        ensures
            r matches Ok(m) ==> {
                &&& m@ == Map::<Seq<char>, (Seq<char>, Seq<char>)>::empty()
                &&& m.dir() == cert_dir@
                &&& m.ca_key_pem() == ca_key_pem@
                &&& Some(m.ca_facts().0) == ca_cert_read(ca_cert_pem@)
                &&& m.ca_facts().1 == ca_key_pem@
                &&& m.ca_facts().2 == ca_key_pem@
                &&& signed_by_ca(&m)
                &&& pem_begins(m.ca_pem(), "CERTIFICATE"@)
            },
            r matches Err(CertError::CaCertificate) <==> ca_cert_read(ca_cert_pem@) is None,
            r matches Err(CertError::CaKey) <==> (ca_cert_read(ca_cert_pem@) is Some
                && !key_pem_accepted(ca_key_pem@)),
            r matches Err(e) ==> (e == CertError::CaCertificate || e == CertError::CaKey || e
                == CertError::CaResign),
    {
        let params = match parse_ca_params(ca_cert_pem) {
            Ok(p) => p,
            Err(_) => return Err(CertError::CaCertificate),
        };
        let key = match parse_key_pair(ca_key_pem) {
            Ok(k) => k,
            Err(_) => return Err(CertError::CaKey),
        };
        let cert = match self_sign(params, &key) {
            Ok(c) => c,
            Err(_) => return Err(CertError::CaResign),
        };
        Ok(CertManager::from_ca(cert_dir, cert, key))
    }

    fn find(&self, domain: &str) -> (r: Option<usize>)
        ensures
            match r {
                Some(i) => is_first_key(self.entries(), domain@, i as int),
                None => !has_key(self.entries(), domain@),
            },
    {
        let n = self.issued.len();
        for i in 0..n
            invariant
                n == self.issued@.len(),
                forall|j: int| 0 <= j < i ==> self.entries()[j].0 != domain@,
        {
            if str_eq(self.issued[i].0.as_str(), domain) {
                return Some(i);
            }
        }
        None
    }

    /// The PEM certificate and key for `domain`: those issued before for it,
    /// unchanged; otherwise a new key pair, and a certificate that names
    /// `domain` alone, certifies the new key pair and is signed by the CA's
    /// key, which are kept for later calls. Nothing is kept when issuing
    /// fails; an ASCII domain name is always accepted as a subject, while key
    /// generation and signing may fail inside `rcgen`.
    pub fn get_or_create_domain_cert_pem(&mut self, domain: &str) -> (r: Result<
        PemPair,
        CertError,
    >)
        ensures
            final(self).dir() == old(self).dir(),
            final(self).ca_pem() == old(self).ca_pem(),
            final(self).ca_key_pem() == old(self).ca_key_pem(),
            final(self).ca_facts() == old(self).ca_facts(),
            final(self).ca_profile() == old(self).ca_profile(),
            issue_step(
                old(self)@,
                domain@,
                match r {
                    Ok(p) => Some((p.0@, p.1@)),
                    Err(_) => None,
                },
                final(self)@,
            ),
            signed_by_ca(final(self)),
            r matches Ok(p) ==> final(self).issued_facts()[domain@] == (
                seq![domain@],
                p.1@,
                old(self).ca_key_pem(),
            ),
            r matches Err(e) ==> (e == CertError::DomainParams ==> !all_ascii(domain@)),
            r matches Ok(p) ==> pem_begins(p.0@, "CERTIFICATE"@) && pem_begins(p.1@, "PRIVATE KEY"@),
    {
        proof {
            use_type_invariant(&*self);
            self.lemma_signed_by_ca();
        }
        match self.find(domain) {
            Some(i) => {
                proof {
                    lemma_first_key(self.entries(), domain@, i as int);
                    assert(pem_begins(self.issued@[i as int].1.cert.text(), "CERTIFICATE"@));
                }
                let cert = copy_str(self.issued[i].1.cert.pem());
                let key = copy_str(self.issued[i].1.key.pem());
                assert(self@.contains_key(domain@));
                assert(self@[domain@] == (cert@, key@));
                return Ok((cert, key));
            },
            None => {},
        }
        let key = match generate_key_pair() {
            Ok(k) => k,
            Err(_) => return Err(CertError::KeyGeneration),
        };
        let params = match domain_cert_params(copy_str(domain)) {
            Ok(p) => p,
            Err(_) => return Err(CertError::DomainParams),
        };
        let cert = match sign_cert(params, &key, &self.ca, &self.ca_key) {
            Ok(c) => c,
            Err(_) => return Err(CertError::Signing),
        };
        let cert_pem = copy_str(cert.pem());
        let key_pem = copy_str(key.pem());
        let ghost old_entries = self.entries();
        let ghost value = (cert_pem@, key_pem@);
        let mut issued: Vec<(String, Issued)> = Vec::new();
        std::mem::swap(&mut issued, &mut self.issued);
        issued.push((copy_str(domain), Issued { cert, key }));
        self.issued = issued;
        proof {
            assert(self.entries() =~= old_entries.push((domain@, value)));
            lemma_push_new_key(old_entries, domain@, value);
            use_type_invariant(&*self);
            self.lemma_signed_by_ca();
        }
        Ok((cert_pem, key_pem))
    }

    /// The CA certificate in PEM form: the same text on every call, however
    /// many domain certificates have been issued since the manager was made.
    pub fn ca_cert_pem(&self) -> (r: Result<String, CertError>)
        ensures
            r matches Ok(p) && p@ == self.ca_pem(),
    {
        Ok(copy_str(self.ca.pem()))
    }

    /// The directory that holds the CA files.
    pub fn cert_dir(&self) -> (r: &str)
        ensures
            r@ == self.dir(),
    {
        self.cert_dir.as_str()
    }
}

/// Asking twice for the same domain gives the same certificate and key: once
/// a request has succeeded, every later one returns what it returned and
/// keeps the issued certificates as they are.
pub proof fn lemma_domain_cert_reused(
    s0: Map<Seq<char>, (Seq<char>, Seq<char>)>,
    s1: Map<Seq<char>, (Seq<char>, Seq<char>)>,
    s2: Map<Seq<char>, (Seq<char>, Seq<char>)>,
    domain: Seq<char>,
    first: (Seq<char>, Seq<char>),
    second: Option<(Seq<char>, Seq<char>)>,
)
    requires
        issue_step(s0, domain, Some(first), s1),
        issue_step(s1, domain, second, s2),
    ensures
        second == Some(first),
        s2 == s1,
{
}

/// A request for one domain leaves the certificates of every other domain as
/// they were.
pub proof fn lemma_other_domains_kept(
    before: Map<Seq<char>, (Seq<char>, Seq<char>)>,
    after: Map<Seq<char>, (Seq<char>, Seq<char>)>,
    domain: Seq<char>,
    out: Option<(Seq<char>, Seq<char>)>,
    other: Seq<char>,
)
    requires
        issue_step(before, domain, out, after),
        other != domain,
    ensures
        after.contains_key(other) == before.contains_key(other),
        before.contains_key(other) ==> after[other] == before[other],
{
}

} // verus!
