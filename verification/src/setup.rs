//! What the program is set up with: certificates, their host name and their private key.

use vstd::prelude::*;
use vstd::string::*;

use webpki::EndEntityCert;

use crate::connman::{ConnmanBuilder, TlsIdentity};
use crate::text;
use crate::text::{is_wildcard, law_wildcard_is_star_dot};

verus! {

/// The certificates in a PEM file with the bytes `pem`, in DER, or why the file cannot be read.
pub uninterp spec fn pem_certs_of(pem: Seq<u8>) -> Result<Seq<Seq<u8>>, Seq<char>>;

/// The PKCS#8 private keys in a PEM file with the bytes `pem`, in DER, or why the file cannot be
/// read.
pub uninterp spec fn pem_keys_of(pem: Seq<u8>) -> Result<Seq<Seq<u8>>, Seq<char>>;

/// The DNS names of the certificate `der`, or why it cannot be read.
pub uninterp spec fn dns_names_of(der: Seq<u8>) -> Result<Seq<Seq<char>>, Seq<char>>;

/// The contents of several pieces of data.
pub open spec fn contents(pieces: Seq<Vec<u8>>) -> Seq<Seq<u8>> {
    pieces.map_values(|piece: Vec<u8>| piece@)
}

/// What several pieces of text say.
pub open spec fn words(texts: Seq<String>) -> Seq<Seq<char>> {
    texts.map_values(|text: String| text@)
}

/// What was read from a PEM file, as contents and text.
pub open spec fn pem_view(r: Result<Vec<Vec<u8>>, String>) -> Result<Seq<Seq<u8>>, Seq<char>> {
    match r {
        Ok(pieces) => Ok(contents(pieces@)),
        Err(message) => Err(message@),
    }
}

/// The names in a certificate, as text.
pub open spec fn names_view(r: Result<Vec<String>, String>) -> Result<Seq<Seq<char>>, Seq<char>> {
    match r {
        Ok(names) => Ok(words(names@)),
        Err(message) => Err(message@),
    }
}

/// Calls `rustls_pemfile::certs` on a reader of the bytes.
///
/// Claimed of it: what it returns, and the text of its error, is a function of the bytes alone.
#[verifier::external_body]
fn pem_certs(pem: &[u8]) -> (r: Result<Vec<Vec<u8>>, String>)
    ensures
        pem_view(r) == pem_certs_of(pem@),
{
    let mut reader: &[u8] = pem;
    rustls_pemfile::certs(&mut reader).map_err(|err| err.to_string())
}

/// Calls `rustls_pemfile::pkcs8_private_keys` on a reader of the bytes.
///
/// Claimed of it: what it returns, and the text of its error, is a function of the bytes alone.
#[verifier::external_body]
fn pem_keys(pem: &[u8]) -> (r: Result<Vec<Vec<u8>>, String>)
    ensures
        pem_view(r) == pem_keys_of(pem@),
{
    let mut reader: &[u8] = pem;
    rustls_pemfile::pkcs8_private_keys(&mut reader).map_err(|err| err.to_string())
}

/// Calls `webpki::EndEntityCert::try_from` on the bytes and `dns_names` of the certificate, and
/// writes each name out.
///
/// Claimed of it: the names, and the text of an error, are a function of the bytes alone.
#[verifier::external_body]
fn dns_names(der: &[u8]) -> (r: Result<Vec<String>, String>)
    ensures
        names_view(r) == dns_names_of(der@),
{
    let cert = EndEntityCert::try_from(der).map_err(|err| err.to_string())?;
    let names = cert.dns_names().map_err(|err| err.to_string())?;
    Ok(names.map(|name| <&str>::from(name).to_string()).collect())
}

/// Why the program could not be set up.
#[derive(Debug)]
pub enum Error {
    /// A PEM file could not be read.
    Pem(String),
    /// A certificate could not be read.
    Certificate(String),
    /// The file has no private key.
    NoKey(String),
    /// The file has more than one private key.
    ManyKeys(String),
}

/// How an error is written.
pub open spec fn error_text(error: Error) -> Seq<char> {
    match error {
        Error::Pem(message) => message@,
        Error::Certificate(message) => message@,
        Error::NoKey(path) => "No PKCS8-encoded private key found in "@ + path@,
        Error::ManyKeys(path) => "More than one PKCS8-encoded private key found in "@ + path@,
    }
}

impl Error {
    /// Writes the error.
    pub fn to_string(&self) -> (s: String)
        ensures
            s@ == error_text(*self),
    {
        match self {
            Error::Pem(message) => message.clone(),
            Error::Certificate(message) => message.clone(),
            Error::NoKey(path) => text::join(
                "No PKCS8-encoded private key found in ",
                path.as_str(),
            ),
            Error::ManyKeys(path) => text::join(
                "More than one PKCS8-encoded private key found in ",
                path.as_str(),
            ),
        }
    }
}

/// Whether `r` is the outcome of reading certificates with the result `listing`.
pub open spec fn loads_certificates(
    listing: Result<Seq<Seq<u8>>, Seq<char>>,
    r: Result<Vec<Vec<u8>>, Error>,
) -> bool {
    match listing {
        Ok(certs) => r matches Ok(v) && contents(v@) == certs,
        Err(message) => r matches Err(Error::Pem(m)) && m@ == message,
    }
}

/// Whether `r` is the outcome of reading a private key from the file `path` with the result
/// `listing`: the file has to hold one key and no more.
pub open spec fn loads_key(
    listing: Result<Seq<Seq<u8>>, Seq<char>>,
    path: Seq<char>,
    r: Result<Vec<u8>, Error>,
) -> bool {
    match listing {
        Err(message) => r matches Err(Error::Pem(m)) && m@ == message,
        Ok(keys) => if keys.len() == 0 {
            r matches Err(Error::NoKey(p)) && p@ == path
        } else if keys.len() == 1 {
            r matches Ok(key) && key@ == keys[0]
        } else {
            r matches Err(Error::ManyKeys(p)) && p@ == path
        },
    }
}

/// All names of several certificates, in order, or why the first bad one cannot be read.
pub open spec fn all_names(listings: Seq<Result<Seq<Seq<char>>, Seq<char>>>) -> Result<
    Seq<Seq<char>>,
    Seq<char>,
>
    decreases listings.len(),
{
    if listings.len() == 0 {
        Ok(Seq::empty())
    } else {
        match all_names(listings.drop_last()) {
            Err(message) => Err(message),
            Ok(names) => match listings.last() {
                Err(message) => Err(message),
                Ok(more) => Ok(names + more),
            },
        }
    }
}

/// What the last wildcard among the names stands below, or nothing where there is none.
pub open spec fn wildcard_host(names: Seq<Seq<char>>) -> Seq<char>
    decreases names.len(),
{
    if names.len() == 0 {
        Seq::empty()
    } else if is_wildcard(names.last()) {
        names.last().skip(2)
    } else {
        wildcard_host(names.drop_last())
    }
}

/// Whether `r` is the host name that comes of the names of several certificates.
pub open spec fn finds_host(
    listings: Seq<Result<Seq<Seq<char>>, Seq<char>>>,
    r: Result<String, Error>,
) -> bool {
    match all_names(listings) {
        Ok(names) => r matches Ok(host) && host@ == wildcard_host(names),
        Err(message) => r matches Err(Error::Certificate(m)) && m@ == message,
    }
}

/// The names of several certificates.
pub open spec fn names_of_certs(certs: Seq<Seq<u8>>) -> Seq<
    Result<Seq<Seq<char>>, Seq<char>>,
> {
    certs.map_values(|der: Seq<u8>| dns_names_of(der))
}

/// The views of several listings of names.
pub open spec fn listing_views(listings: Seq<Result<Vec<String>, String>>) -> Seq<
    Result<Seq<Seq<char>>, Seq<char>>,
> {
    listings.map_values(|listing: Result<Vec<String>, String>| names_view(listing))
}

/// Reads the certificates of a PEM file.
pub fn load_certificates_from_pem(pem: &[u8]) -> (r: Result<Vec<Vec<u8>>, Error>)
    ensures
        loads_certificates(pem_certs_of(pem@), r),
{
    match pem_certs(pem) {
        Ok(certs) => Ok(certs),
        Err(message) => Err(Error::Pem(message)),
    }
}

/// Reads the one private key of a PEM file. `path` is the path of the file, as it is shown.
pub fn load_private_key_from_file(pem: &[u8], path: &str) -> (r: Result<Vec<u8>, Error>)
    ensures
        loads_key(pem_keys_of(pem@), path@, r),
{
    choose_private_key(pem_keys(pem), path)
}

/// Picks the one private key of those that were read from the file `path`.
pub fn choose_private_key(keys: Result<Vec<Vec<u8>>, String>, path: &str) -> (r: Result<
    Vec<u8>,
    Error,
>)
    ensures
        loads_key(pem_view(keys), path@, r),
{
    match keys {
        Err(message) => Err(Error::Pem(message)),
        Ok(mut keys) => {
            let ghost all = keys@;
            if keys.len() == 0 {
                Err(Error::NoKey(path.to_owned()))
            } else if keys.len() == 1 {
                let key = keys.remove(0);
                assert(contents(all)[0] == all[0]@);
                Ok(key)
            } else {
                Err(Error::ManyKeys(path.to_owned()))
            }
        },
    }
}

/// Finds the host name that certificates hold a wildcard for. It is empty where they hold none.
pub fn tls_host(certs: &Vec<Vec<u8>>) -> (r: Result<String, Error>)
    ensures
        finds_host(names_of_certs(contents(certs@)), r),
{
    let mut listings: Vec<Result<Vec<String>, String>> = Vec::new();
    let mut i: usize = 0;
    while i < certs.len()
        invariant
            i <= certs.len(),
            listings.len() == i,
            forall|k: int|
                0 <= k < i ==> names_view(#[trigger] listings@[k]) == dns_names_of(certs@[k]@),
        decreases certs.len() - i,
    {
        listings.push(dns_names(certs[i].as_slice()));
        i += 1;
    }
    assert(listing_views(listings@) =~= names_of_certs(contents(certs@)));
    host_of_names(listings)
}

/// Finds the host name in the names of several certificates: the last wildcard wins.
pub fn host_of_names(listings: Vec<Result<Vec<String>, String>>) -> (r: Result<String, Error>)
    ensures
        finds_host(listing_views(listings@), r),
{
    let ghost views = listing_views(listings@);
    let ghost before = listings@;
    let ghost mut seen: Seq<Seq<char>> = Seq::empty();
    let mut host = "".to_owned();
    proof {
        reveal_strlit("");
        assert(host@ =~= Seq::empty());
        assert(views.take(0) =~= Seq::empty());
    }
    for listing in it: listings
        invariant
            it.seq() == before,
            views == listing_views(before),
            all_names(views.take(it.index() as int)) == Ok::<Seq<Seq<char>>, Seq<char>>(seen),
            host@ == wildcard_host(seen),
    {
        let ghost i = it.index() as int;
        proof {
            assert(views.take(i + 1).drop_last() =~= views.take(i));
            assert(views[i] == names_view(before[i]));
        }
        match listing {
            Err(message) => {
                proof {
                    lemma_first_error(views, i);
                }
                return Err(Error::Certificate(message));
            },
            Ok(names) => {
                let ghost more = words(names@);
                let mut k: usize = 0;
                assert(seen + more.take(0) =~= seen);
                while k < names.len()
                    invariant
                        k <= names.len(),
                        more == words(names@),
                        host@ == wildcard_host(seen + more.take(k as int)),
                    decreases names.len() - k,
                {
                    proof {
                        let next = seen + more.take(k + 1);
                        assert(next.drop_last() =~= seen + more.take(k as int));
                        assert(next.last() == names@[k as int]@);
                    }
                    if let Some(rest) = text::strip_wildcard(names[k].as_str()) {
                        host = rest;
                    }
                    k += 1;
                }
                proof {
                    assert(more.take(more.len() as int) =~= more);
                    seen = seen + more;
                }
            },
        }
    }
    assert(views.take(views.len() as int) =~= views);
    Ok(host)
}

/// Where the certificates before `i` can be read and that at `i` cannot, `i` decides.
proof fn lemma_first_error(listings: Seq<Result<Seq<Seq<char>>, Seq<char>>>, i: int)
    requires
        0 <= i < listings.len(),
        all_names(listings.take(i)) is Ok,
        listings[i] is Err,
    ensures
        all_names(listings) == listings[i],
    decreases listings.len(),
{
    if i == listings.len() - 1 {
        assert(listings.drop_last() =~= listings.take(i));
    } else {
        let rest = listings.drop_last();
        assert(rest.take(i) =~= listings.take(i));
        lemma_first_error(rest, i);
    }
}

/// Serves encrypted connections with the certificates and the key, where the certificates hold a
/// wildcard; where they hold none, encrypted connections are not served.
pub fn configure_tls(builder: ConnmanBuilder, cert: Vec<Vec<u8>>, key: Vec<u8>) -> (r: Result<
    ConnmanBuilder,
    Error,
>)
    ensures
        configures_tls(builder, cert, key, names_of_certs(contents(cert@)), r),
{
    let host = tls_host(&cert);
    configure_tls_host(builder, cert, key, host)
}

/// Whether `r` is the builder that comes of the certificates `cert` with the names `listings`.
pub open spec fn configures_tls(
    builder: ConnmanBuilder,
    cert: Vec<Vec<u8>>,
    key: Vec<u8>,
    listings: Seq<Result<Seq<Seq<char>>, Seq<char>>>,
    r: Result<ConnmanBuilder, Error>,
) -> bool {
    match all_names(listings) {
        Err(message) => r matches Err(Error::Certificate(m)) && m@ == message,
        Ok(names) => {
            &&& r matches Ok(built)
            &&& built.spec_docker() == builder.spec_docker()
            &&& built.spec_proxy_host() == builder.spec_proxy_host()
            &&& if wildcard_host(names).len() > 0 {
                built.spec_tls() matches Some(identity) && identity.cert == cert && identity.key
                    == key && identity.host@ == wildcard_host(names)
            } else {
                built.spec_tls() == builder.spec_tls()
            }
        },
    }
}

/// Whether `r` is the builder that serves encrypted connections for hosts below `host`, unless it
/// is empty.
pub open spec fn sets_tls_host(
    builder: ConnmanBuilder,
    cert: Vec<Vec<u8>>,
    key: Vec<u8>,
    host: Result<String, Error>,
    r: Result<ConnmanBuilder, Error>,
) -> bool {
    match host {
        Err(error) => r == Err::<ConnmanBuilder, Error>(error),
        Ok(name) => {
            &&& r matches Ok(built)
            &&& built.spec_docker() == builder.spec_docker()
            &&& built.spec_proxy_host() == builder.spec_proxy_host()
            &&& built.spec_tls() == (if name@.len() > 0 {
                Some(TlsIdentity { cert, key, host: name })
            } else {
                builder.spec_tls()
            })
        },
    }
}

/// Serves encrypted connections for hosts below `host`, unless it is empty.
pub fn configure_tls_host(
    builder: ConnmanBuilder,
    cert: Vec<Vec<u8>>,
    key: Vec<u8>,
    host: Result<String, Error>,
) -> (r: Result<ConnmanBuilder, Error>)
    ensures
        match host {
            Err(error) => r == Err::<ConnmanBuilder, Error>(error),
            Ok(name) => {
                &&& r matches Ok(built)
                &&& built.spec_docker() == builder.spec_docker()
                &&& built.spec_proxy_host() == builder.spec_proxy_host()
                &&& built.spec_tls() == (if name@.len() > 0 {
                    Some(TlsIdentity { cert, key, host: name })
                } else {
                    builder.spec_tls()
                })
            },
        },
        sets_tls_host(builder, cert, key, host, r),
{
    match host {
        Err(error) => Err(error),
        Ok(name) => if name.as_str().unicode_len() > 0 {
            Ok(builder.with_tls(cert, key, name))
        } else {
            Ok(builder)
        },
    }
}

/// The last wildcard among the names decides.
pub proof fn law_last_wildcard_wins(names: Seq<Seq<char>>, i: int)
    requires
        0 <= i < names.len(),
        is_wildcard(names[i]),
        forall|k: int| i < k < names.len() ==> !is_wildcard(#[trigger] names[k]),
    ensures
        wildcard_host(names) == names[i].skip(2),
    decreases names.len(),
{
    if i < names.len() - 1 {
        let rest = names.drop_last();
        assert(!is_wildcard(names[names.len() - 1]));
        assert forall|k: int| i < k < rest.len() implies !is_wildcard(#[trigger] rest[k]) by {
            assert(rest[k] == names[k]);
        }
        law_last_wildcard_wins(rest, i);
    }
}

/// Without a wildcard there is no host name.
pub proof fn law_no_wildcard_no_host(names: Seq<Seq<char>>)
    requires
        forall|k: int| 0 <= k < names.len() ==> !is_wildcard(#[trigger] names[k]),
    ensures
        wildcard_host(names).len() == 0,
    decreases names.len(),
{
    if names.len() > 0 {
        let rest = names.drop_last();
        assert(!is_wildcard(names[names.len() - 1]));
        assert forall|k: int| 0 <= k < rest.len() implies !is_wildcard(#[trigger] rest[k]) by {
            assert(rest[k] == names[k]);
        }
        law_no_wildcard_no_host(rest);
    }
}

/// The first certificate that cannot be read decides why there is no host name.
pub proof fn law_first_bad_certificate_decides(
    listings: Seq<Result<Seq<Seq<char>>, Seq<char>>>,
    i: int,
)
    requires
        0 <= i < listings.len(),
        listings[i] is Err,
        forall|k: int| 0 <= k < i ==> #[trigger] listings[k] is Ok,
    ensures
        all_names(listings) == listings[i],
{
    lemma_readable(listings.take(i));
    lemma_first_error(listings, i);
}

proof fn lemma_readable(listings: Seq<Result<Seq<Seq<char>>, Seq<char>>>)
    requires
        forall|k: int| 0 <= k < listings.len() ==> #[trigger] listings[k] is Ok,
    ensures
        all_names(listings) is Ok,
    decreases listings.len(),
{
    if listings.len() > 0 {
        let rest = listings.drop_last();
        assert(listings[listings.len() - 1] is Ok);
        assert forall|k: int| 0 <= k < rest.len() implies #[trigger] rest[k] is Ok by {
            assert(rest[k] == listings[k]);
        }
        lemma_readable(rest);
    }
}

/// A private key is read exactly where the file can be read and holds one key, which is the one.
/// Without a key, with several, and where the file cannot be read, that is what is reported.
pub proof fn law_file_holds_one_key(
    listing: Result<Seq<Seq<u8>>, Seq<char>>,
    path: Seq<char>,
    r: Result<Vec<u8>, Error>,
)
    requires
        loads_key(listing, path, r),
    ensures
        r is Ok <==> listing is Ok && listing->Ok_0.len() == 1,
        r matches Ok(key) ==> listing == Ok::<Seq<Seq<u8>>, Seq<char>>(seq![key@]),
        r matches Err(e) ==> (e is NoKey <==> listing is Ok && listing->Ok_0.len() == 0),
        r matches Err(e) ==> (e is ManyKeys <==> listing is Ok && listing->Ok_0.len() > 1),
        r matches Err(e) ==> (e is Pem <==> listing is Err),
        r matches Err(Error::Pem(m)) ==> m@ == listing->Err_0,
        r matches Err(Error::NoKey(p)) ==> p@ == path,
        r matches Err(Error::ManyKeys(p)) ==> p@ == path,
        r matches Err(e) ==> !(e is Certificate),
{
    if let Ok(key) = r {
        assert(listing->Ok_0 =~= seq![key@]);
    }
}

/// All certificates of a file are read, in order, exactly where the file can be read.
pub proof fn law_all_certificates_are_read(
    listing: Result<Seq<Seq<u8>>, Seq<char>>,
    r: Result<Vec<Vec<u8>>, Error>,
    i: int,
)
    requires
        loads_certificates(listing, r),
    ensures
        r is Ok <==> listing is Ok,
        r matches Ok(certs) ==> certs@.len() == listing->Ok_0.len() && (0 <= i < certs@.len()
            ==> certs@[i]@ == listing->Ok_0[i]),
        r matches Err(e) ==> e matches Error::Pem(m) && m@ == listing->Err_0,
{
    if let Ok(certs) = r {
        if 0 <= i < certs@.len() {
            assert(contents(certs@)[i] == certs@[i]@);
        }
    }
}

/// The names of two lists of certificates in a row are those of the first and then those of the
/// second, where both can be read; otherwise what cannot be read in the first decides before what
/// cannot be read in the second. The names of a single certificate are its own.
pub proof fn law_names_of_joined_certificates(
    a: Seq<Result<Seq<Seq<char>>, Seq<char>>>,
    b: Seq<Result<Seq<Seq<char>>, Seq<char>>>,
    one: Result<Seq<Seq<char>>, Seq<char>>,
)
    ensures
        all_names(a) matches Ok(x) ==> all_names(b) matches Ok(y) ==> all_names(a + b) == Ok::<
            Seq<Seq<char>>,
            Seq<char>,
        >(x + y),
        all_names(a) is Err ==> all_names(a + b) == all_names(a),
        all_names(a) is Ok && all_names(b) is Err ==> all_names(a + b) == all_names(b),
        all_names(seq![one]) == one,
    decreases b.len(),
{
    assert(seq![one].drop_last() =~= Seq::empty());
    reveal_with_fuel(all_names, 2);
    if let Ok(names) = one {
        assert(Seq::<Seq<char>>::empty() + names =~= names);
    }
    if b.len() == 0 {
        assert(a + b =~= a);
        if let Ok(x) = all_names(a) {
            assert(x + Seq::<Seq<char>>::empty() =~= x);
        }
    } else {
        let rest = b.drop_last();
        law_names_of_joined_certificates(a, rest, one);
        assert((a + b).drop_last() =~= a + rest);
        assert((a + b).last() == b.last());
        if let Ok(x) = all_names(a) {
            if let Ok(y) = all_names(rest) {
                if let Ok(more) = b.last() {
                    assert(x + y + more =~= x + (y + more));
                }
            }
        }
    }
}

/// The host name is found exactly where all certificates can be read, and is what the last star and
/// dot among their names stand before.
pub proof fn law_host_comes_after_the_last_star(
    listings: Seq<Result<Seq<Seq<char>>, Seq<char>>>,
    r: Result<String, Error>,
    names: Seq<Seq<char>>,
    i: int,
    host: Seq<char>,
)
    requires
        finds_host(listings, r),
        all_names(listings) == Ok::<Seq<Seq<char>>, Seq<char>>(names),
        0 <= i < names.len(),
        names[i] == "*."@ + host,
        forall|k: int| i < k < names.len() ==> !is_wildcard(#[trigger] names[k]),
    ensures
        r matches Ok(found) && found@ == host,
{
    law_wildcard_is_star_dot(names[i], host);
    law_last_wildcard_wins(names, i);
}

/// Where no name begins with a star and a dot, the host name is empty.
pub proof fn law_no_star_no_host(
    listings: Seq<Result<Seq<Seq<char>>, Seq<char>>>,
    r: Result<String, Error>,
    names: Seq<Seq<char>>,
)
    requires
        finds_host(listings, r),
        all_names(listings) == Ok::<Seq<Seq<char>>, Seq<char>>(names),
        forall|k: int| 0 <= k < names.len() ==> !is_wildcard(#[trigger] names[k]),
    ensures
        r matches Ok(found) && found@.len() == 0,
{
    law_no_wildcard_no_host(names);
}

/// A certificate that cannot be read is reported with its reason, and nothing else is.
pub proof fn law_bad_certificate_is_reported(
    listings: Seq<Result<Seq<Seq<char>>, Seq<char>>>,
    r: Result<String, Error>,
    i: int,
)
    requires
        finds_host(listings, r),
    ensures
        (forall|k: int| 0 <= k < listings.len() ==> #[trigger] listings[k] is Ok) ==> r is Ok,
        0 <= i < listings.len() && listings[i] is Err && (forall|k: int|
            0 <= k < i ==> #[trigger] listings[k] is Ok) ==> (r matches Err(Error::Certificate(m))
            && m@ == listings[i]->Err_0),
{
    if forall|k: int| 0 <= k < listings.len() ==> #[trigger] listings[k] is Ok {
        lemma_readable(listings);
    }
    if 0 <= i < listings.len() && listings[i] is Err && (forall|k: int|
        0 <= k < i ==> #[trigger] listings[k] is Ok) {
        law_first_bad_certificate_decides(listings, i);
    }
}

/// Encrypted connections are served with the given certificates and key for the host that was
/// found, unless it is empty: that changes nothing, nor does the host change anything else. Where
/// no host could be found the error is passed on.
pub proof fn law_tls_is_served_for_a_host(
    builder: ConnmanBuilder,
    cert: Vec<Vec<u8>>,
    key: Vec<u8>,
    host: Result<String, Error>,
    r: Result<ConnmanBuilder, Error>,
)
    requires
        sets_tls_host(builder, cert, key, host, r),
    ensures
        r is Ok <==> host is Ok,
        r matches Err(e) ==> e == host->Err_0,
        r matches Ok(built) ==> built.spec_docker() == builder.spec_docker()
            && built.spec_proxy_host() == builder.spec_proxy_host(),
        r matches Ok(built) ==> host->Ok_0@.len() == 0 ==> built.spec_tls() == builder.spec_tls(),
        r matches Ok(built) ==> host->Ok_0@.len() > 0 ==> (built.spec_tls() matches Some(identity)
            && identity.cert@ == cert@ && identity.key@ == key@ && identity.host@
            == host->Ok_0@),
{
}

/// Setting encrypted connections up from certificates is finding their host and setting them up
/// for it.
pub proof fn law_tls_is_configured_for_the_host_found(
    builder: ConnmanBuilder,
    cert: Vec<Vec<u8>>,
    key: Vec<u8>,
    listings: Seq<Result<Seq<Seq<char>>, Seq<char>>>,
    host: Result<String, Error>,
    a: Result<ConnmanBuilder, Error>,
    b: Result<ConnmanBuilder, Error>,
)
    requires
        finds_host(listings, host),
        sets_tls_host(builder, cert, key, host, a),
        configures_tls(builder, cert, key, listings, b),
    ensures
        a is Ok <==> b is Ok,
        a matches Ok(x) ==> b matches Ok(y) && x.spec_docker() == y.spec_docker()
            && x.spec_proxy_host() == y.spec_proxy_host() && (x.spec_tls() is Some
            <==> y.spec_tls() is Some) && (x.spec_tls() matches Some(p) ==> p.cert@
            == y.spec_tls()->0.cert@ && p.key@ == y.spec_tls()->0.key@ && p.host@
            == y.spec_tls()->0.host@),
        a matches Err(x) ==> b matches Err(y) && error_text(x) == error_text(y),
{
}

/// What is written of an error is the reason, or what is wrong with the file before its path.
pub proof fn law_error_names_its_file(message: String, path: String)
    ensures
        error_text(Error::Pem(message)) == message@,
        error_text(Error::Certificate(message)) == message@,
        error_text(Error::NoKey(path)) == "No PKCS8-encoded private key found in "@ + path@,
        error_text(Error::ManyKeys(path)) == "More than one PKCS8-encoded private key found in "@
            + path@,
{
}

} // verus!
