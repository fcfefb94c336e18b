//! Certificates and private keys, and which of them a client is shown.

use crate::config::types::{opt_text, views, VhostConfig, VhostView};
use crate::text::{chars_of, push_str, same, string_of};
use rustls::pki_types::{
    CertificateDer, PrivateKeyDer, PrivatePkcs1KeyDer, PrivatePkcs8KeyDer, PrivateSec1KeyDer,
};
use rustls::sign::{CertifiedKey, SigningKey};
use std::sync::Arc;
use vstd::prelude::*;

verus! {

/// How a private key is encoded.
#[derive(Debug, Clone, Copy, PartialEq, Eq, Structural)]
pub enum KeyKind {
    Pkcs1,
    Sec1,
    Pkcs8,
}

/// A private key in DER form.
#[derive(Debug, PartialEq, Eq)]
pub struct KeyMaterial {
    pub kind: KeyKind,
    pub der: Vec<u8>,
}

#[verifier::ext_equal]
pub struct KeyView {
    pub kind: KeyKind,
    pub der: Seq<u8>,
}

impl View for KeyMaterial {
    type V = KeyView;

    open spec fn view(&self) -> KeyView {
        KeyView { kind: self.kind, der: self.der@ }
    }
}

/// The views of a chain of certificates.
pub open spec fn ders(c: Seq<Vec<u8>>) -> Seq<Seq<u8>> {
    Seq::new(c.len(), |i: int| c[i]@)
}

/// A chain of certificates and the private key of the first one.
#[derive(Debug, PartialEq, Eq)]
pub struct Credentials {
    pub chain: Vec<Vec<u8>>,
    pub key: KeyMaterial,
}

#[verifier::ext_equal]
pub struct CredentialsView {
    pub chain: Seq<Seq<u8>>,
    pub key: KeyView,
}

impl View for Credentials {
    type V = CredentialsView;

    open spec fn view(&self) -> CredentialsView {
        CredentialsView { chain: ders(self.chain@), key: self.key@ }
    }
}

/// What came of reading a file.
#[derive(Debug, PartialEq, Eq)]
pub enum PemFile {
    /// It could not be opened, and why.
    Closed(String),
    /// It could not be read, and why.
    Broken(String),
    Content(Vec<u8>),
}

#[verifier::ext_equal]
pub enum PemView {
    Closed(Seq<char>),
    Broken(Seq<char>),
    Content(Seq<u8>),
}

impl View for PemFile {
    type V = PemView;

    open spec fn view(&self) -> PemView {
        match self {
            PemFile::Closed(e) => PemView::Closed(e@),
            PemFile::Broken(e) => PemView::Broken(e@),
            PemFile::Content(b) => PemView::Content(b@),
        }
    }
}

/// The files of a certificate and of its key, as they were read.
#[derive(Debug, PartialEq, Eq)]
pub struct PemPair {
    pub certificate: PemFile,
    pub key: PemFile,
}

#[verifier::ext_equal]
pub struct PairView {
    pub certificate: PemView,
    pub key: PemView,
}

impl View for PemPair {
    type V = PairView;

    open spec fn view(&self) -> PairView {
        PairView { certificate: self.certificate@, key: self.key@ }
    }
}

/// The certificates of a PEM file, or why it is none.
pub uninterp spec fn pem_certificates(b: Seq<u8>) -> Result<Seq<Seq<u8>>, Seq<char>>;

/// The first private key of a PEM file, if there is one, or why it is none.
pub uninterp spec fn pem_private_key(b: Seq<u8>) -> Result<Option<KeyView>, Seq<char>>;

/// A signer of `rustls`, made from a private key.
#[verifier::external_body]
pub struct Signer {
    signer: Arc<dyn SigningKey>,
}

/// The private key that a signer was made from.
pub uninterp spec fn signer_key(s: Signer) -> KeyView;

/// Why a private key is not that of the first certificate of a chain; none where it
/// is.
pub uninterp spec fn key_mismatch(chain: Seq<Seq<u8>>, key: KeyView) -> Option<Seq<char>>;

/// `certs` of `rustls_pemfile`, up to its first error: a function of the bytes. Nothing
/// is said of which certificates there are.
#[verifier::external_body]
pub(crate) fn read_certificates(b: &[u8]) -> (r: Result<Vec<Vec<u8>>, String>)
    ensures
        match r {
            Ok(c) => pem_certificates(b@) == Ok::<_, Seq<char>>(ders(c@)),
            Err(e) => pem_certificates(b@) == Err::<Seq<Seq<u8>>, _>(e@),
        },
{
    let mut rest = b;
    rustls_pemfile::certs(&mut rest)
        .map(|c| c.map(|c| c.to_vec()).map_err(|e| e.to_string()))
        .collect()
}

/// `private_key` of `rustls_pemfile`: a function of the bytes. Nothing is said of
/// which key there is.
#[verifier::external_body]
pub(crate) fn read_private_key(b: &[u8]) -> (r: Result<Option<KeyMaterial>, String>)
    ensures
        match r {
            Ok(Some(k)) => pem_private_key(b@) == Ok::<_, Seq<char>>(Some(k@)),
            Ok(None) => pem_private_key(b@) == Ok::<Option<KeyView>, Seq<char>>(None),
            Err(e) => pem_private_key(b@) == Err::<Option<KeyView>, _>(e@),
        },
{
    let mut rest = b;
    let key = rustls_pemfile::private_key(&mut rest).map_err(|e| e.to_string())?;
    Ok(key.map(|k| match k {
        PrivateKeyDer::Pkcs1(k) => (KeyKind::Pkcs1, k.secret_pkcs1_der().to_vec()),
        PrivateKeyDer::Sec1(k) => (KeyKind::Sec1, k.secret_sec1_der().to_vec()),
        k => (KeyKind::Pkcs8, k.secret_der().to_vec()),
    }).map(|(kind, der)| KeyMaterial { kind, der }))
}

/// `any_supported_type` of `rustls`: a signer made from the key, or why there is none.
/// Nothing is said of when there is none: for some keys the random source of the system
/// is asked, which may fail.
#[verifier::external_body]
pub(crate) fn supported_key(key: &KeyMaterial) -> (r: Result<Signer, String>)
    ensures
        r matches Ok(s) ==> signer_key(s) == key@,
{
    let der: PrivateKeyDer<'_> = match key.kind {
        KeyKind::Pkcs1 => PrivatePkcs1KeyDer::from(key.der.as_slice()).into(),
        KeyKind::Sec1 => PrivateSec1KeyDer::from(key.der.as_slice()).into(),
        KeyKind::Pkcs8 => PrivatePkcs8KeyDer::from(key.der.as_slice()).into(),
    };
    let signer = rustls::crypto::ring::sign::any_supported_type(&der);
    signer.map(|signer| Signer { signer }).map_err(|e| e.to_string())
}

/// `CertifiedKey::keys_match` of `rustls`: a function of the chain and of the key that
/// the signer was made from. Nothing is said of which keys match.
#[verifier::external_body]
pub(crate) fn matching_key(chain: &Vec<Vec<u8>>, s: &Signer) -> (r: Result<(), String>)
    ensures
        match r {
            Ok(_) => key_mismatch(ders(chain@), signer_key(*s)) is None,
            Err(e) => key_mismatch(ders(chain@), signer_key(*s)) == Some(e@),
        },
{
    let chain = chain.iter().map(|c| CertificateDer::from(c.clone())).collect();
    CertifiedKey::new(chain, s.signer.clone()).keys_match().map_err(|e| e.to_string())
}

/// The chain that was found in a file.
pub open spec fn chain_found(r: Result<Seq<Seq<u8>>, Seq<char>>) -> Result<
    Seq<Seq<u8>>,
    Seq<char>,
> {
    match r {
        Err(e) => Err("invalid TLS certificate: "@ + e),
        Ok(c) => if c.len() == 0 {
            Err("TLS certificate PEM contains no certificates"@)
        } else {
            Ok(c)
        },
    }
}

/// The key that was found in a file.
pub open spec fn key_found(r: Result<Option<KeyView>, Seq<char>>) -> Result<KeyView, Seq<char>> {
    match r {
        Err(e) => Err("invalid TLS private key: "@ + e),
        Ok(None) => Err("TLS private key PEM contains no private key"@),
        Ok(Some(k)) => Ok(k),
    }
}

/// What is wrong with a key that was found: `refusal` and `mismatch` say why it cannot
/// be used and why it is not that of the certificate.
pub open spec fn key_complaint(refusal: Option<Seq<char>>, mismatch: Option<Seq<char>>) -> Option<
    Seq<char>,
> {
    match (refusal, mismatch) {
        (Some(e), _) => Some("unsupported TLS private key: "@ + e),
        (None, Some(e)) => Some("certificate/private key mismatch: "@ + e),
        (None, None) => None,
    }
}

/// What is said of a file that could not be opened.
pub open spec fn not_opened(what: Seq<char>, path: Seq<char>, why: Seq<char>) -> Seq<char> {
    "cannot open TLS "@ + what + " "@ + path + ": "@ + why
}

/// What a read certificate file holds.
pub open spec fn chain_of(f: PemView) -> Result<Seq<Seq<u8>>, Seq<char>> {
    match f {
        PemView::Closed(e) => Err(e),
        PemView::Broken(e) => Err(e),
        PemView::Content(b) => pem_certificates(b),
    }
}

/// What a read key file holds.
pub open spec fn key_of(f: PemView) -> Result<Option<KeyView>, Seq<char>> {
    match f {
        PemView::Closed(e) => Err(e),
        PemView::Broken(e) => Err(e),
        PemView::Content(b) => pem_private_key(b),
    }
}

/// The credentials of two files, or what is wrong with them. `refusal` is why no signer
/// could be made from the key, where there is one.
pub open spec fn credentials(
    certificate: Seq<char>,
    key: Seq<char>,
    files: PairView,
    refusal: Option<Seq<char>>,
) -> Result<CredentialsView, Seq<char>> {
    match (files.certificate, files.key) {
        (PemView::Closed(e), _) => Err(not_opened("certificate"@, certificate, e)),
        (_, PemView::Closed(e)) => Err(not_opened("private key"@, key, e)),
        _ => match (chain_found(chain_of(files.certificate)), key_found(key_of(files.key))) {
            (Err(e), _) => Err(e),
            (Ok(_), Err(e)) => Err(e),
            (Ok(c), Ok(k)) => match key_complaint(refusal, key_mismatch(c, k)) {
                Some(e) => Err(e),
                None => Ok(CredentialsView { chain: c, key: k }),
            },
        },
    }
}

/// Accepted credentials hold a certificate, and a key that a signer was made from and
/// that is the key of the first certificate.
pub proof fn law_accepted_keys_match(
    certificate: Seq<char>,
    key: Seq<char>,
    files: PairView,
    refusal: Option<Seq<char>>,
)
    ensures
        credentials(certificate, key, files, refusal) matches Ok(c) ==> c.chain.len() > 0
            && refusal is None && key_mismatch(c.chain, c.key) is None,
{
}

/// Files that hold no certificate or no key are refused before a signer is asked for.
pub proof fn law_missing_material_is_refused(
    certificate: Seq<char>,
    key: Seq<char>,
    files: PairView,
    refusal: Option<Seq<char>>,
)
    requires
        chain_found(chain_of(files.certificate)) is Err || key_found(key_of(files.key)) is Err,
    ensures
        credentials(certificate, key, files, refusal) is Err,
        credentials(certificate, key, files, refusal) == credentials(
            certificate,
            key,
            files,
            None,
        ),
{
}

fn text_with(s: &str, e: &str) -> (r: String)
    ensures
        r@ == s@ + e@,
{
    let mut t = chars_of(s);
    push_str(&mut t, e);
    string_of(&t)
}

/// The chain that was found in a file.
pub fn found_chain(r: Result<Vec<Vec<u8>>, String>) -> (c: Result<Vec<Vec<u8>>, String>)
    ensures
        match c {
            Ok(x) => chain_found(
                match r {
                    Ok(v) => Ok(ders(v@)),
                    Err(e) => Err(e@),
                },
            ) == Ok::<_, Seq<char>>(ders(x@)),
            Err(x) => chain_found(
                match r {
                    Ok(v) => Ok(ders(v@)),
                    Err(e) => Err(e@),
                },
            ) == Err::<Seq<Seq<u8>>, _>(x@),
        },
{
    match r {
        Err(e) => Err(text_with("invalid TLS certificate: ", e.as_str())),
        Ok(c) => if c.len() == 0 {
            Err("TLS certificate PEM contains no certificates".to_owned())
        } else {
            Ok(c)
        },
    }
}

/// The key that was found in a file.
pub fn found_key(r: Result<Option<KeyMaterial>, String>) -> (k: Result<KeyMaterial, String>)
    ensures
        match k {
            Ok(x) => r matches Ok(Some(v)) && v@ == x@,
            Err(x) => !(r matches Ok(Some(_))) && key_found(
                match r {
                    Ok(_) => Ok(None),
                    Err(e) => Err(e@),
                },
            ) == Err::<KeyView, _>(x@),
        },
{
    match r {
        Err(e) => Err(text_with("invalid TLS private key: ", e.as_str())),
        Ok(None) => Err("TLS private key PEM contains no private key".to_owned()),
        Ok(Some(k)) => Ok(k),
    }
}

/// What is wrong with a key that was found.
pub fn complaint(refusal: Option<String>, mismatch: Option<String>) -> (r: Option<String>)
    ensures
        opt_text(r) == key_complaint(opt_text(refusal), opt_text(mismatch)),
{
    match (refusal, mismatch) {
        (Some(e), _) => Some(text_with("unsupported TLS private key: ", e.as_str())),
        (None, Some(e)) => Some(text_with("certificate/private key mismatch: ", e.as_str())),
        (None, None) => None,
    }
}

fn cannot_open(what: &str, path: &str, why: &str) -> (r: String)
    ensures
        r@ == not_opened(what@, path@, why@),
{
    let mut t = chars_of("cannot open TLS ");
    push_str(&mut t, what);
    push_str(&mut t, " ");
    push_str(&mut t, path);
    push_str(&mut t, ": ");
    push_str(&mut t, why);
    string_of(&t)
}

/// The result is the one described.
pub open spec fn loaded(
    r: Result<Credentials, String>,
    want: Result<CredentialsView, Seq<char>>,
) -> bool {
    match r {
        Ok(c) => want == Ok::<_, Seq<char>>(c@),
        Err(e) => want == Err::<CredentialsView, _>(e@),
    }
}

/// The credentials of a chain and a key that were found, given why no signer could be
/// made from the key and why it is not that of the certificate.
pub fn accept_key(
    chain: Vec<Vec<u8>>,
    key: KeyMaterial,
    refusal: Option<String>,
    mismatch: Option<String>,
) -> (r: Result<Credentials, String>)
    ensures
        loaded(
            r,
            match key_complaint(opt_text(refusal), opt_text(mismatch)) {
                Some(e) => Err(e),
                None => Ok(CredentialsView { chain: ders(chain@), key: key@ }),
            },
        ),
{
    match complaint(refusal, mismatch) {
        Some(e) => Err(e),
        None => Ok(Credentials { chain, key }),
    }
}

/// The credentials of two files, or what is wrong with them. Whether a signer can be made
/// from a key that was found is not up to the files alone.
pub fn load_certified_key(certificate: &str, key: &str, files: &PemPair) -> (r: Result<
    Credentials,
    String,
>)
    ensures
        exists|refusal: Option<Seq<char>>|
            loaded(r, #[trigger] credentials(certificate@, key@, files@, refusal)),
{
    let ghost plain = credentials(certificate@, key@, files@, None);
    let chain = match &files.certificate {
        PemFile::Closed(e) => {
            let r = Err(cannot_open("certificate", certificate, e.as_str()));
            assert(loaded(r, plain));
            return r;
        },
        PemFile::Broken(e) => Err(e.clone()),
        PemFile::Content(b) => read_certificates(b.as_slice()),
    };
    let found = match &files.key {
        PemFile::Closed(e) => {
            let r = Err(cannot_open("private key", key, e.as_str()));
            assert(loaded(r, plain));
            return r;
        },
        PemFile::Broken(e) => Err(e.clone()),
        PemFile::Content(b) => read_private_key(b.as_slice()),
    };
    let chain = match found_chain(chain) {
        Ok(c) => c,
        Err(e) => {
            let r = Err(e);
            assert(loaded(r, plain));
            return r;
        },
    };
    let material = match found_key(found) {
        Ok(k) => k,
        Err(e) => {
            let r = Err(e);
            assert(loaded(r, plain));
            return r;
        },
    };
    match supported_key(&material) {
        Err(e) => {
            let ghost refusal = Some(e@);
            let r = accept_key(chain, material, Some(e), None);
            assert(loaded(r, credentials(certificate@, key@, files@, refusal)));
            r
        },
        Ok(signer) => {
            let mismatch = match matching_key(&chain, &signer) {
                Err(e) => Some(e),
                Ok(_) => None,
            };
            let r = accept_key(chain, material, None, mismatch);
            assert(loaded(r, plain));
            r
        },
    }
}

/// The credentials of a server and of its virtual hosts.
#[derive(Debug)]
pub struct TlsAcceptor {
    default: Credentials,
    named: Vec<(String, Credentials)>,
}

pub open spec fn named_views(n: Seq<(String, Credentials)>) -> Seq<(Seq<char>, CredentialsView)> {
    Seq::new(n.len(), |i: int| (n[i].0@, n[i].1@))
}

#[verifier::ext_equal]
pub struct AcceptorView {
    /// What is shown where no virtual host has credentials of its own.
    pub default: CredentialsView,
    pub named: Seq<(Seq<char>, CredentialsView)>,
}

impl View for TlsAcceptor {
    type V = AcceptorView;

    closed spec fn view(&self) -> AcceptorView {
        AcceptorView { default: self.default@, named: named_views(self.named@) }
    }
}

/// What is said of a virtual host with a certificate or a key only.
pub open spec fn half_material(host: Seq<char>) -> Seq<char> {
    "vhost "@ + host + " must specify both TLS certificate and private key"@
}

pub open spec fn pair_views(f: Seq<PemPair>) -> Seq<PairView> {
    Seq::new(f.len(), |i: int| f[i]@)
}

/// What came of loading credentials.
pub open spec fn result_view(r: Result<Credentials, String>) -> Result<
    CredentialsView,
    Seq<char>,
> {
    match r {
        Ok(c) => Ok(c@),
        Err(e) => Err(e@),
    }
}

/// The credentials of virtual hosts after one more, given what came of loading its files.
/// A host that names no files adds none, and one that names a certificate or a key only is
/// refused.
pub open spec fn with_vhost(
    named: Seq<(Seq<char>, CredentialsView)>,
    v: VhostView,
    loaded: Result<CredentialsView, Seq<char>>,
) -> Result<Seq<(Seq<char>, CredentialsView)>, Seq<char>> {
    match (v.tls_certificate, v.tls_private_key) {
        (Some(_), Some(_)) => match loaded {
            Ok(c) => Ok(named.push((v.host, c))),
            Err(e) => Err(e),
        },
        (None, None) => Ok(named),
        _ => Err(half_material(v.host)),
    }
}

/// What comes of loading the files of a virtual host; it is not looked at where the host
/// does not name both.
pub open spec fn vhost_loaded(v: VhostView, files: PairView, refusal: Option<Seq<char>>) -> Result<
    CredentialsView,
    Seq<char>,
> {
    match (v.tls_certificate, v.tls_private_key) {
        (Some(a), Some(b)) => credentials(a, b, files, refusal),
        _ => Err(Seq::empty()),
    }
}

/// The credentials of virtual hosts, or what is wrong with the first that is not in
/// order. The files of a host stand at its place, and so does why no signer could be made
/// from its key.
pub open spec fn vhost_credentials(
    v: Seq<VhostView>,
    files: Seq<PairView>,
    refusals: Seq<Option<Seq<char>>>,
) -> Result<Seq<(Seq<char>, CredentialsView)>, Seq<char>>
    decreases v.len(),
{
    if v.len() == 0 {
        Ok(Seq::empty())
    } else {
        match vhost_credentials(v.drop_last(), files, refusals) {
            Err(e) => Err(e),
            Ok(l) => with_vhost(
                l,
                v.last(),
                vhost_loaded(v.last(), files[v.len() - 1], refusals[v.len() - 1]),
            ),
        }
    }
}

/// The credentials of a server and of its virtual hosts, or what is wrong with them.
/// `refusal` and `refusals` say why no signers could be made.
pub open spec fn acceptor(
    certificate: Seq<char>,
    key: Seq<char>,
    own: PairView,
    v: Seq<VhostView>,
    files: Seq<PairView>,
    refusal: Option<Seq<char>>,
    refusals: Seq<Option<Seq<char>>>,
) -> Result<AcceptorView, Seq<char>> {
    match credentials(certificate, key, own, refusal) {
        Err(e) => Err(e),
        Ok(default) => match vhost_credentials(v, files, refusals) {
            Err(e) => Err(e),
            Ok(named) => Ok(AcceptorView { default, named }),
        },
    }
}

/// The result is the one described.
pub open spec fn accepted(
    r: Result<TlsAcceptor, String>,
    want: Result<AcceptorView, Seq<char>>,
) -> bool {
    match r {
        Ok(a) => want == Ok::<_, Seq<char>>(a@),
        Err(e) => want == Err::<AcceptorView, _>(e@),
    }
}

/// What a client that asks for a name is shown: what the last virtual host of that
/// name has, or else what the server has.
pub open spec fn shown(a: AcceptorView, name: Option<Seq<char>>) -> CredentialsView {
    match name {
        None => a.default,
        Some(n) => last_named(a.named, n, a.default),
    }
}

pub open spec fn last_named(
    l: Seq<(Seq<char>, CredentialsView)>,
    name: Seq<char>,
    other: CredentialsView,
) -> CredentialsView
    decreases l.len(),
{
    if l.len() == 0 {
        other
    } else if l.last().0 == name {
        l.last().1
    } else {
        last_named(l.drop_last(), name, other)
    }
}

proof fn lemma_vhosts_fail(
    v: Seq<VhostView>,
    files: Seq<PairView>,
    refusals: Seq<Option<Seq<char>>>,
    n: int,
)
    requires
        0 <= n <= v.len(),
        vhost_credentials(v.subrange(0, n), files, refusals) is Err,
    ensures
        vhost_credentials(v, files, refusals) == vhost_credentials(
            v.subrange(0, n),
            files,
            refusals,
        ),
    decreases v.len() - n,
{
    if n == v.len() {
        assert(v.subrange(0, n) =~= v);
    } else {
        assert(v.subrange(0, n + 1).drop_last() =~= v.subrange(0, n));
        lemma_vhosts_fail(v, files, refusals, n + 1);
    }
}

proof fn lemma_later_refusals(
    v: Seq<VhostView>,
    files: Seq<PairView>,
    a: Seq<Option<Seq<char>>>,
    b: Seq<Option<Seq<char>>>,
)
    requires
        forall|i: int| 0 <= i < v.len() ==> #[trigger] a[i] == b[i],
    ensures
        vhost_credentials(v, files, a) == vhost_credentials(v, files, b),
    decreases v.len(),
{
    if v.len() > 0 {
        lemma_later_refusals(v.drop_last(), files, a, b);
        assert(a[v.len() - 1] == b[v.len() - 1]);
    }
}

/// A client that asks for a virtual host is shown the credentials of that host, where
/// it is the last of its name and has some.
pub proof fn law_vhosts_show_their_own_certificates(
    certificate: Seq<char>,
    key: Seq<char>,
    own: PairView,
    v: Seq<VhostView>,
    files: Seq<PairView>,
    refusal: Option<Seq<char>>,
    refusals: Seq<Option<Seq<char>>>,
    k: int,
)
    requires
        0 <= k < v.len(),
        v[k].tls_certificate is Some,
        v[k].tls_private_key is Some,
        forall|j: int| k < j < v.len() ==> (#[trigger] v[j]).host != v[k].host,
        acceptor(certificate, key, own, v, files, refusal, refusals) is Ok,
    ensures
        Ok::<_, Seq<char>>(
            shown(
                acceptor(certificate, key, own, v, files, refusal, refusals)->Ok_0,
                Some(v[k].host),
            ),
        ) == credentials(
            v[k].tls_certificate->Some_0,
            v[k].tls_private_key->Some_0,
            files[k],
            refusals[k],
        ),
{
    let a = acceptor(certificate, key, own, v, files, refusal, refusals)->Ok_0;
    lemma_last_vhost(v, files, refusals, k, a.default);
}

proof fn lemma_last_vhost(
    v: Seq<VhostView>,
    files: Seq<PairView>,
    refusals: Seq<Option<Seq<char>>>,
    k: int,
    other: CredentialsView,
)
    requires
        0 <= k < v.len(),
        v[k].tls_certificate is Some,
        v[k].tls_private_key is Some,
        forall|j: int| k < j < v.len() ==> (#[trigger] v[j]).host != v[k].host,
        vhost_credentials(v, files, refusals) is Ok,
    ensures
        Ok::<_, Seq<char>>(
            last_named(vhost_credentials(v, files, refusals)->Ok_0, v[k].host, other),
        ) == credentials(
            v[k].tls_certificate->Some_0,
            v[k].tls_private_key->Some_0,
            files[k],
            refusals[k],
        ),
    decreases v.len(),
{
    let l = vhost_credentials(v.drop_last(), files, refusals)->Ok_0;
    let all = vhost_credentials(v, files, refusals)->Ok_0;
    if all != l {
        assert(all.drop_last() =~= l);
    }
    if k < v.len() - 1 {
        assert(v.drop_last()[k] == v[k]);
        assert(v[v.len() - 1].host != v[k].host);
        lemma_last_vhost(v.drop_last(), files, refusals, k, other);
    }
}

/// A client that names no virtual host with credentials is shown those of the server.
pub proof fn law_other_names_show_the_default_certificate(a: AcceptorView, name: Seq<char>)
    requires
        forall|j: int| 0 <= j < a.named.len() ==> (#[trigger] a.named[j]).0 != name,
    ensures
        shown(a, Some(name)) == a.default,
        shown(a, None) == a.default,
{
    lemma_none_named(a.named, name, a.default);
}

proof fn lemma_none_named(
    l: Seq<(Seq<char>, CredentialsView)>,
    name: Seq<char>,
    other: CredentialsView,
)
    requires
        forall|j: int| 0 <= j < l.len() ==> (#[trigger] l[j]).0 != name,
    ensures
        last_named(l, name, other) == other,
    decreases l.len(),
{
    if l.len() > 0 {
        assert(l[l.len() - 1].0 != name);
        assert forall|j: int| 0 <= j < l.drop_last().len() implies (#[trigger] l.drop_last()[j]).0
            != name by {
            assert(l[j].0 != name);
        }
        lemma_none_named(l.drop_last(), name, other);
    }
}

/// The credentials of virtual hosts after one more, given what came of loading its files.
pub fn add_vhost(
    named: Vec<(String, Credentials)>,
    vhost: &VhostConfig,
    loaded: Result<Credentials, String>,
) -> (r: Result<Vec<(String, Credentials)>, String>)
    ensures
        match r {
            Ok(n) => with_vhost(named_views(named@), vhost@, result_view(loaded)) == Ok::<
                _,
                Seq<char>,
            >(named_views(n@)),
            Err(e) => with_vhost(named_views(named@), vhost@, result_view(loaded)) == Err::<
                Seq<(Seq<char>, CredentialsView)>,
                _,
            >(e@),
        },
{
    let ghost before = named_views(named@);
    match (&vhost.tls_certificate, &vhost.tls_private_key) {
        (Some(_), Some(_)) => match loaded {
            Ok(c) => {
                let mut all = named;
                all.push((vhost.host.clone(), c));
                assert(named_views(all@) =~= before.push((vhost@.host, c@)));
                Ok(all)
            },
            Err(e) => Err(e),
        },
        (None, None) => Ok(named),
        _ => {
            let mut t = chars_of("vhost ");
            push_str(&mut t, vhost.host.as_str());
            push_str(&mut t, " must specify both TLS certificate and private key");
            Err(string_of(&t))
        },
    }
}

impl TlsAcceptor {
    /// The credentials of a server and of its virtual hosts, or what is wrong with them.
    /// `files` holds the files of each virtual host; those of a host that names none are
    /// not looked at.
    pub fn from_pem_with_vhosts(
        certificate: &str,
        key: &str,
        own: &PemPair,
        vhosts: &Vec<VhostConfig>,
        files: &Vec<PemPair>,
    ) -> (r: Result<Self, String>)
        requires
            files@.len() == vhosts@.len(),
        ensures
            exists|refusal: Option<Seq<char>>, refusals: Seq<Option<Seq<char>>>|
                refusals.len() == vhosts@.len() && accepted(
                    r,
                    #[trigger] acceptor(
                        certificate@,
                        key@,
                        own@,
                        views(vhosts@),
                        pair_views(files@),
                        refusal,
                        refusals,
                    ),
                ),
    {
        let ghost v = views(vhosts@);
        let ghost f = pair_views(files@);
        let ghost none = Seq::new(v.len(), |i: int| None::<Seq<char>>);
        let first = load_certified_key(certificate, key, own);
        let ghost refusal = choose|x: Option<Seq<char>>|
            loaded(first, #[trigger] credentials(certificate@, key@, own@, x));
        let default = match first {
            Ok(c) => c,
            Err(e) => {
                let r = Err(e);
                assert(accepted(
                    r,
                    acceptor(certificate@, key@, own@, v, f, refusal, none),
                ));
                return r;
            },
        };
        let mut named: Vec<(String, Credentials)> = Vec::new();
        let ghost mut refusals = none;
        let mut i: usize = 0;
        assert(v.subrange(0, 0) =~= Seq::<VhostView>::empty());
        assert(named_views(named@) =~= Seq::<(Seq<char>, CredentialsView)>::empty());
        while i < vhosts.len()
            invariant
                v == views(vhosts@),
                f == pair_views(files@),
                files@.len() == vhosts@.len(),
                i <= vhosts@.len(),
                refusals.len() == v.len(),
                credentials(certificate@, key@, own@, refusal) == Ok::<_, Seq<char>>(default@),
                vhost_credentials(v.subrange(0, i as int), f, refusals) == Ok::<_, Seq<char>>(
                    named_views(named@),
                ),
            decreases vhosts@.len() - i,
        {
            assert(v.subrange(0, i + 1).drop_last() =~= v.subrange(0, i as int));
            assert(v.subrange(0, i + 1).last() == vhosts@[i as int]@);
            assert(f[i as int] == files@[i as int]@);
            let x = &vhosts[i];
            let outcome = match (&x.tls_certificate, &x.tls_private_key) {
                (Some(a), Some(b)) => {
                    let next = load_certified_key(a.as_str(), b.as_str(), &files[i]);
                    proof {
                        let y = choose|y: Option<Seq<char>>|
                            loaded(next, #[trigger] credentials(a@, b@, files@[i as int]@, y));
                        let later = refusals.update(i as int, y);
                        lemma_later_refusals(v.subrange(0, i as int), f, refusals, later);
                        refusals = later;
                    }
                    next
                },
                _ => Err(String::new()),
            };
            assert(result_view(outcome) == vhost_loaded(
                x@,
                f[i as int],
                refusals[i as int],
            ));
            named = match add_vhost(named, x, outcome) {
                Ok(n) => n,
                Err(e) => {
                    proof {
                        lemma_vhosts_fail(v, f, refusals, i + 1);
                    }
                    let r = Err(e);
                    assert(accepted(
                        r,
                        acceptor(certificate@, key@, own@, v, f, refusal, refusals),
                    ));
                    return r;
                },
            };
            i = i + 1;
        }
        assert(v.subrange(0, v.len() as int) =~= v);
        let r = Ok(TlsAcceptor { default, named });
        assert(accepted(r, acceptor(certificate@, key@, own@, v, f, refusal, refusals)));
        r
    }

    /// What a client that asks for a name is shown.
    pub fn resolve(&self, name: Option<&str>) -> (c: &Credentials)
        ensures
            c@ == shown(
                self@,
                match name {
                    Some(n) => Some(n@),
                    None => None,
                },
            ),
    {
        let n = match name {
            Some(n) => chars_of(n),
            None => {
                return &self.default;
            },
        };
        let ghost l = named_views(self.named@);
        let mut k: usize = self.named.len();
        assert(l.subrange(0, k as int) =~= l);
        while k > 0
            invariant
                l == named_views(self.named@),
                k <= self.named@.len(),
                name is Some,
                n@ == name->Some_0@,
                last_named(l.subrange(0, k as int), n@, self.default@) == last_named(
                    l,
                    n@,
                    self.default@,
                ),
            decreases k,
        {
            assert(l.subrange(0, k as int).drop_last() =~= l.subrange(0, k - 1));
            assert(l.subrange(0, k as int).last() == (
                self.named@[k - 1].0@,
                self.named@[k - 1].1@,
            ));
            if same(&chars_of(self.named[k - 1].0.as_str()), &n) {
                return &self.named[k - 1].1;
            }
            k = k - 1;
        }
        &self.default
    }
}

} // verus!
