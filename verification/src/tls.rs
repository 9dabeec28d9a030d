//! The server's TLS certificate and key files: whether they are there, may be
//! generated, generating a self-signed pair, and reading the certificates and
//! the private key out of the PEM text. The caller checks, reads and writes
//! the files.

use vstd::prelude::*;

use crate::config::TlsConfig;
use crate::error::CoreError;

verus! {

/// The texts held by a list of strings.
pub open spec fn texts_view(v: Seq<String>) -> Seq<Seq<char>> {
    v.map_values(|s: String| s@)
}

/// The names a generated self-signed certificate is made for.
pub open spec fn local_names() -> Seq<Seq<char>> {
    seq!["localhost"@, "127.0.0.1"@, "::1"@]
}

/// `cert_pem` is the PEM text of a certificate for the subject alternative
/// names `names` (as `rcgen::CertificateParams::new(names)` makes them),
/// self-signed with the key pair whose PKCS#8 PEM text is `key_pem`.
pub uninterp spec fn self_signed_pair(cert_pem: Seq<char>, key_pem: Seq<char>, names: Seq<Seq<char>>) -> bool;

/// `rcgen::generate_simple_self_signed(names)`: a fresh key pair and a
/// self-signed certificate for `names`, as PEM text (`cert.pem()`,
/// `key_pair.serialize_pem()`); a refusal is returned as the text of the
/// crate's error. The key is random; the contract claims what holds of every
/// pair: the certificate is made for `names` and signed by that key, its PEM
/// text holds exactly one certificate that `rustls_pemfile` reads, and the
/// key's PEM text holds a PKCS#8 key that it reads. Nothing is claimed of
/// when it fails.
#[verifier::external_body]
fn generate_simple_self_signed(names: Vec<String>) -> (r: Result<(String, String), String>)
    ensures
        r matches Ok((c, k)) ==> {
            &&& self_signed_pair(c@, k@, texts_view(names@))
            &&& pem_certificate_items(vstd::utf8::encode_utf8(c@)).len() == 1
            &&& pem_certificate_items(vstd::utf8::encode_utf8(c@))[0] is Ok
            &&& pem_first_pkcs8_key(vstd::utf8::encode_utf8(k@)) matches Some(Ok(_))
        },
{
    rcgen::generate_simple_self_signed(names)
        .map(|g| (g.cert.pem(), g.key_pair.serialize_pem()))
        .map_err(|e| e.to_string())
}

/// `std::io::Error::other(message)`; nothing is claimed of the value.
#[verifier::external_body]
fn io_error_other(message: String) -> std::io::Error {
    std::io::Error::other(message)
}

/// `std::io::Error::new(ErrorKind::InvalidData, message)`; nothing is
/// claimed of the value.
#[verifier::external_body]
fn io_error_invalid_data(message: String) -> std::io::Error {
    std::io::Error::new(std::io::ErrorKind::InvalidData, message)
}

/// The views of PEM items: DER bytes, or the text of a read error.
pub open spec fn item_views(v: Seq<Result<Vec<u8>, String>>) -> Seq<Result<Seq<u8>, Seq<char>>> {
    v.map_values(
        |x: Result<Vec<u8>, String>|
            match x {
                Ok(b) => Ok(b@),
                Err(e) => Err(e@),
            },
    )
}

/// What `rustls_pemfile::certs` yields for the PEM text `pem`: for each
/// `CERTIFICATE` section in order, its DER bytes, or the text of the error
/// met while reading.
pub uninterp spec fn pem_certificate_items(pem: Seq<u8>) -> Seq<Result<Seq<u8>, Seq<char>>>;

/// `rustls_pemfile::certs` over the bytes `pem`, every item kept, as DER
/// bytes or the text of the read error.
#[verifier::external_body]
fn pem_certificates(pem: &[u8]) -> (r: Vec<Result<Vec<u8>, String>>)
    ensures
        item_views(r@) == pem_certificate_items(pem@),
{
    let mut rd = pem;
    rustls_pemfile::certs(&mut rd)
        .map(|item| item.map(|c| c.as_ref().to_vec()).map_err(|e| e.to_string()))
        .collect()
}

/// The first item `rustls_pemfile::pkcs8_private_keys` yields for the PEM
/// text `pem`: the DER of the first PKCS#8 `PRIVATE KEY` section, the text of
/// the error met while reading, or none.
pub uninterp spec fn pem_first_pkcs8_key(pem: Seq<u8>) -> Option<Result<Seq<u8>, Seq<char>>>;

/// `rustls_pemfile::pkcs8_private_keys(..).next()` over the bytes `pem`.
#[verifier::external_body]
fn first_pkcs8_key(pem: &[u8]) -> (r: Option<Result<Vec<u8>, String>>)
    ensures
        match r {
            None => pem_first_pkcs8_key(pem@) is None,
            Some(Ok(k)) => pem_first_pkcs8_key(pem@) == Some(Ok::<Seq<u8>, Seq<char>>(k@)),
            Some(Err(e)) => pem_first_pkcs8_key(pem@) == Some(Err::<Seq<u8>, Seq<char>>(e@)),
        },
{
    let mut rd = pem;
    let first = rustls_pemfile::pkcs8_private_keys(&mut rd).next();
    first.map(|item| item.map(|k| k.secret_pkcs8_der().to_vec()).map_err(|e| e.to_string()))
}

/// The DER of the items that were read, in order; items that could not be
/// read are left out.
pub open spec fn readable(items: Seq<Result<Seq<u8>, Seq<char>>>) -> Seq<Seq<u8>>
    decreases items.len(),
{
    if items.len() == 0 {
        Seq::empty()
    } else {
        let init = readable(items.drop_last());
        match items.last() {
            Ok(d) => init.push(d),
            Err(_) => init,
        }
    }
}

/// The certificates that are read keep their order: reading one more item
/// appends its DER when it was read and adds nothing when it was not, and
/// the certificates read from two runs of items are those of the first run
/// followed by those of the second.
pub proof fn lemma_readable_in_order(
    items: Seq<Result<Seq<u8>, Seq<char>>>,
    more: Seq<Result<Seq<u8>, Seq<char>>>,
    d: Seq<u8>,
    e: Seq<char>,
)
    ensures
        readable(items.push(Ok(d))) == readable(items).push(d),
        readable(items.push(Err(e))) == readable(items),
        readable(items + more) == readable(items) + readable(more),
        readable(Seq::empty()) == Seq::<Seq<u8>>::empty(),
    decreases more.len(),
{
    assert(items.push(Ok(d)).drop_last() =~= items);
    assert(items.push(Err(e)).drop_last() =~= items);
    if more.len() == 0 {
        assert(items + more =~= items);
        assert(readable(items) + readable(more) =~= readable(items));
    } else {
        let init = more.drop_last();
        lemma_readable_in_order(items, init, d, e);
        assert((items + more).drop_last() =~= items + init);
        assert((items + more).last() == more.last());
        match more.last() {
            Ok(x) => {
                assert(readable(items) + readable(init).push(x) =~= (readable(items) + readable(init)).push(x));
            },
            Err(_) => {},
        }
    }
}

/// A certificate read at position `i` comes, in what is read, after every
/// certificate read before it: the DER read from `items[..i]` followed by
/// that of `items[i]` is a prefix of what is read from all of `items`.
pub proof fn lemma_readable_prefix(items: Seq<Result<Seq<u8>, Seq<char>>>, i: int)
    requires
        0 <= i < items.len(),
        items[i] is Ok,
    ensures
        readable(items).len() >= readable(items.take(i)).len() + 1,
        readable(items).take(readable(items.take(i)).len() as int + 1) == readable(items.take(i)).push(
            items[i]->Ok_0,
        ),
{
    let d = items[i]->Ok_0;
    let a = items.take(i);
    let b = items.skip(i + 1);
    assert(items =~= a.push(Ok(d)) + b);
    lemma_readable_in_order(a, b, d, Seq::empty());
    lemma_readable_in_order(a.push(Ok(d)), b, d, Seq::empty());
    assert(readable(items) == readable(a).push(d) + readable(b));
    assert(readable(items).take(readable(a).len() as int + 1) =~= readable(a).push(d));
}

/// The DER of the certificates in the PEM text `cert_pem`, in order, leaving
/// out sections that cannot be read; a text without any is refused (an
/// `InvalidData` I/O error "no certificates in PEM").
pub fn certificate_ders(cert_pem: &[u8]) -> (r: Result<Vec<Vec<u8>>, CoreError>)
    ensures
        match r {
            Ok(v) => v@.len() > 0 && v@.map_values(|d: Vec<u8>| d@) == readable(
                pem_certificate_items(cert_pem@),
            ),
            Err(e) => e is Io && readable(pem_certificate_items(cert_pem@)).len() == 0,
        },
{
    let items = pem_certificates(cert_pem);
    let ghost iv = pem_certificate_items(cert_pem@);
    let mut out: Vec<Vec<u8>> = Vec::new();
    for i in 0..items.len()
        invariant
            item_views(items@) == iv,
            out@.map_values(|d: Vec<u8>| d@) == readable(iv.take(i as int)),
    {
        assert(iv.take(i + 1).drop_last() =~= iv.take(i as int));
        assert(iv[i as int] == match items@[i as int] {
            Ok(b) => Ok::<Seq<u8>, Seq<char>>(b@),
            Err(e) => Err::<Seq<u8>, Seq<char>>(e@),
        });
        match &items[i] {
            Ok(d) => {
                let ghost before = out@;
                out.push(d.clone());
                assert(out@.map_values(|d: Vec<u8>| d@) =~= before.map_values(|d: Vec<u8>| d@).push(
                    d@,
                ));
            },
            Err(_) => {},
        }
    }
    assert(iv.take(items@.len() as int) =~= iv);
    if out.len() == 0 {
        return Err(CoreError::Io(io_error_invalid_data("no certificates in PEM".to_string())));
    }
    Ok(out)
}

/// The DER of the first PKCS#8 private key in the PEM text `key_pem`; a read
/// error or a text without such a key is refused (an `InvalidData` I/O
/// error: the read error's text, or "no PKCS8 private key").
pub fn private_key_der(key_pem: &[u8]) -> (r: Result<Vec<u8>, CoreError>)
    ensures
        match pem_first_pkcs8_key(key_pem@) {
            Some(Ok(k)) => r matches Ok(d) && d@ == k,
            _ => r matches Err(CoreError::Io(_)),
        },
{
    match first_pkcs8_key(key_pem) {
        Some(Ok(k)) => Ok(k),
        Some(Err(e)) => Err(CoreError::Io(io_error_invalid_data(e))),
        None => Err(CoreError::Io(io_error_invalid_data("no PKCS8 private key".to_string()))),
    }
}

/// The names a generated self-signed certificate is made for: `localhost`,
/// `127.0.0.1` and `::1`.
pub fn self_signed_names() -> (r: Vec<String>)
    ensures
        texts_view(r@) == local_names(),
{
    let mut names: Vec<String> = Vec::new();
    names.push("localhost".to_string());
    names.push("127.0.0.1".to_string());
    names.push("::1".to_string());
    assert(texts_view(names@) =~= local_names());
    names
}

/// What to do about the TLS files of a configuration.
#[derive(Debug)]
pub enum TlsFiles {
    /// Both files exist; use them.
    Present,
    /// A file is missing and generating is not allowed.
    Missing,
    /// A file is missing; write this certificate and key (PEM) to the paths.
    Generated { cert_pem: String, key_pem: String },
}

/// Decides on the TLS files given whether the certificate and key files
/// exist: both there means nothing to do; otherwise a self-signed pair for
/// `localhost`, `127.0.0.1` and `::1` is generated when the configuration
/// allows it, and the files are reported missing when it does not.
pub fn tls_files_step(tls: &TlsConfig, cert_exists: bool, key_exists: bool) -> (r: Result<
    TlsFiles,
    CoreError,
>)
    ensures
        cert_exists && key_exists ==> r matches Ok(TlsFiles::Present),
        !(cert_exists && key_exists) && !tls.auto_generate_self_signed ==> r matches Ok(
            TlsFiles::Missing,
        ),
        !(cert_exists && key_exists) && tls.auto_generate_self_signed ==> (r matches Ok(
            TlsFiles::Generated { .. },
        ) || r matches Err(CoreError::Io(_))),
        r matches Ok(TlsFiles::Generated { cert_pem, key_pem }) ==> {
            &&& self_signed_pair(cert_pem@, key_pem@, local_names())
            &&& readable(pem_certificate_items(vstd::utf8::encode_utf8(cert_pem@))).len() == 1
            &&& pem_first_pkcs8_key(vstd::utf8::encode_utf8(key_pem@)) matches Some(Ok(_))
        },
{
    if cert_exists && key_exists {
        return Ok(TlsFiles::Present);
    }
    if !tls.auto_generate_self_signed {
        return Ok(TlsFiles::Missing);
    }
    match generate_simple_self_signed(self_signed_names()) {
        Ok((cert_pem, key_pem)) => {
            proof {
                let items = pem_certificate_items(vstd::utf8::encode_utf8(cert_pem@));
                assert(readable(items.drop_last()) =~= Seq::<Seq<u8>>::empty());
            }
            Ok(TlsFiles::Generated { cert_pem, key_pem })
        },
        Err(m) => Err(CoreError::Io(io_error_other(m))),
    }
}

} // verus!
