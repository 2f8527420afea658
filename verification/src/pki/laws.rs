//! What holds of certificates from the request to the check of the signature.

use vstd::prelude::*;

use crate::pki::csr;
use crate::pki::error::ErrorView;
use crate::pki::mtls;
use crate::sources::DAY_SECONDS;

verus! {

/// The first certificate in `ca_cert_pem` is one for the key in `ca_key_pem`.
pub open spec fn is_certificate_for(ca_cert_pem: Seq<char>, ca_key_pem: Seq<char>) -> bool {
    mtls::certs_outcome(ca_cert_pem) matches Ok(cas) && cas.len() > 0 && (
    mtls::certificate_fields(cas[0]) matches Ok(ca) && ca.public_key == csr::public_key_of(
        ca_key_pem,
    ))
}

/// A certificate that an authority issues on a request for the name `cn` is one certificate.
/// Its serial is `cn`, it lasts the days that were asked for, to the second, from the time of
/// signing on, and where the authority's certificate is one for its key, the authority's
/// signature on it holds.
pub proof fn an_issued_certificate_names_its_holder(
    cert: Seq<char>,
    csr_pem: Seq<char>,
    cn: Seq<char>,
    key_pem: Seq<char>,
    ca_cert_pem: Seq<char>,
    ca_key_pem: Seq<char>,
    validity_days: int,
    now: int,
)
    requires
        csr::requests(csr_pem, cn, key_pem),
        csr::issued_at(cert, csr_pem, ca_cert_pem, ca_key_pem, validity_days, now),
    ensures
        mtls::certs_outcome(cert) matches Ok(chain) && {
            &&& chain.len() == 1
            &&& mtls::serial_outcome(chain) == Ok::<Seq<char>, ErrorView>(cn)
            &&& mtls::certificate_fields(chain[0]) matches Ok(fields) && fields.not_before == now
                && fields.not_after - fields.not_before == validity_days * DAY_SECONDS
            &&& is_certificate_for(ca_cert_pem, ca_key_pem) ==> mtls::signer_fault(
                chain,
                ca_cert_pem,
            ) is None
        },
{
    let chain = mtls::certs_outcome(cert)->Ok_0;
    let fields = mtls::certificate_fields(chain[0])->Ok_0;
    assert(fields.common_names[0] == Ok::<Seq<char>, Seq<char>>(cn));
}

/// A certificate lasts the days that were asked for, each of 86400 seconds, and none is issued
/// that starts before the year 0 or ends after the year 9999; nor is one issued on a request
/// or from an authority that cannot be used. It is written as PEM.
pub proof fn certificates_last_their_days(
    cert: Seq<char>,
    csr_pem: Seq<char>,
    ca_cert_pem: Seq<char>,
    ca_key_pem: Seq<char>,
    validity_days: int,
    now: int,
)
    requires
        csr::issued_at(cert, csr_pem, ca_cert_pem, ca_key_pem, validity_days, now),
    ensures
        csr::certifies(
            cert,
            csr_pem,
            ca_cert_pem,
            ca_key_pem,
            now,
            now + 86400 * validity_days,
        ),
        mtls::pem_certificates(cert) matches Ok(chain) && chain.len() == 1 && (
        mtls::certificate_fields(chain[0]) matches Ok(fields) ==> fields.not_before == now
            && fields.not_after == now + 86400 * validity_days),
        -62_167_219_200 <= now,
        now + 86400 * validity_days <= 253_402_300_799,
        csr::authority_fault(ca_cert_pem) is None,
        csr::request_fault(csr_pem) is None,
        "-----BEGIN CERTIFICATE-----"@.is_prefix_of(cert),
{
}

/// What signing answers: never a certificate where the dates do not fit or a text cannot be
/// used; that the dates do not fit only where they do not; and no other error than that or one
/// of a text.
pub proof fn signing_answers(
    answer: Result<Seq<char>, ErrorView>,
    csr_pem: Seq<char>,
    ca_cert_pem: Seq<char>,
    ca_key_pem: Seq<char>,
    validity_days: int,
    now: int,
)
    requires
        csr::may_answer(answer, csr_pem, ca_cert_pem, ca_key_pem, validity_days, now),
    ensures
        ({
            let fits = -62_167_219_200 <= now && now + 86400 * validity_days <= 253_402_300_799;
            let readable = csr::authority_fault(ca_cert_pem) is None && csr::request_fault(csr_pem)
                is None;
            &&& answer is Ok ==> fits && readable
            &&& answer == Err::<Seq<char>, ErrorView>(ErrorView::Validity) ==> !fits && readable
            &&& answer matches Err(e) ==> e is Validity || e is Pem
        }),
{
}

/// A text of an authority or of a request is refused with what was said against it where it
/// cannot be read, and with a sentence of its own where what it says cannot be written.
pub proof fn unusable_texts_are_named(ca_cert_pem: Seq<char>, csr_pem: Seq<char>)
    ensures
        csr::authority_fault(ca_cert_pem) matches Some(m) ==> csr::authority_refusal(ca_cert_pem)
            == Some(m),
        csr::request_fault(csr_pem) matches Some(m) ==> csr::request_refusal(csr_pem) == Some(m),
        csr::request_fault(csr_pem) is None ==> (csr::request_refusal(csr_pem) is None
            <==> forall|i: int|
            0 <= i < csr::request_parts(csr_pem).len() ==> crate::pki::der::part_writable(
                #[trigger] csr::request_parts(csr_pem)[i],
            )),
        csr::request_fault(csr_pem) is None && csr::request_refusal(csr_pem) is Some
            ==> csr::request_refusal(csr_pem) == Some("the request cannot be written as DER"@),
        csr::authority_fault(ca_cert_pem) is None && csr::authority_refusal(ca_cert_pem) is Some
            ==> csr::authority_refusal(ca_cert_pem) == Some(
            "the authority cannot be written as DER"@,
        ),
        csr::authority_refusal(ca_cert_pem) is None ==> crate::pki::der::all_writable(
            csr::authority_parts(ca_cert_pem),
        ),
        csr::usable(csr_pem, ca_cert_pem) <==> csr::authority_refusal(ca_cert_pem) is None
            && csr::request_refusal(csr_pem) is None,
{
}

/// A request for a name sets the common name of its subject, whose object identifier is
/// 2.5.4.3.
pub proof fn requests_set_the_common_name(csr_pem: Seq<char>, cn: Seq<char>, key_pem: Seq<char>)
    ensures
        csr::requests(csr_pem, cn, key_pem) <==> csr::requests_with(
            csr_pem,
            seq![2u64, 5, 4, 3],
            cn,
            key_pem,
        ),
{
}

/// The serial of a peer is the first common name of the first certificate that it shows.
/// Without a certificate, without a common name, or where either cannot be read, there is none,
/// and the error says which.
pub proof fn serials_are_the_first_common_name(chain: Seq<Seq<u8>>)
    ensures
        chain.len() == 0 ==> mtls::serial_outcome(chain) == Err::<Seq<char>, ErrorView>(
            ErrorView::NoPeerCert,
        ),
        chain.len() > 0 ==> match mtls::certificate_fields(chain[0]) {
            Err(m) => mtls::serial_outcome(chain) == Err::<Seq<char>, ErrorView>(
                ErrorView::Pem(m),
            ),
            Ok(fields) => {
                &&& fields.common_names.len() == 0 ==> mtls::serial_outcome(chain) == Err::<
                    Seq<char>,
                    ErrorView,
                >(ErrorView::Pem("no CN in subject"@))
                &&& fields.common_names.len() > 0 ==> (fields.common_names[0] matches Ok(cn)
                    ==> mtls::serial_outcome(chain) == Ok::<Seq<char>, ErrorView>(cn))
                &&& fields.common_names.len() > 0 ==> (fields.common_names[0] matches Err(m)
                    ==> mtls::serial_outcome(chain) == Err::<Seq<char>, ErrorView>(
                    ErrorView::Pem(m),
                ))
            },
        },
{
}

/// A peer is accepted as one of an authority exactly where both the first certificate that it
/// shows and the first in the authority's text can be read, and the signature on the one holds
/// under the other.
pub proof fn peers_are_signed_by_the_authority(chain: Seq<Seq<u8>>, ca_pem: Seq<char>)
    ensures
        mtls::signer_fault(chain, ca_pem) is None <==> {
            &&& chain.len() > 0
            &&& mtls::pem_certificates(ca_pem) matches Ok(cas) && cas.len() > 0
                && mtls::certificate_fields(cas[0]) is Ok && mtls::certificate_fields(chain[0]) is Ok
                && mtls::signature_fault(chain[0], cas[0]) is None
        },
        chain.len() == 0 ==> mtls::signer_fault(chain, ca_pem) == Some(ErrorView::NoPeerCert),
        chain.len() > 0 ==> (mtls::pem_certificates(ca_pem) matches Err(m) ==> mtls::signer_fault(
            chain,
            ca_pem,
        ) == Some(ErrorView::Pem(m))),
        chain.len() > 0 ==> (mtls::pem_certificates(ca_pem) matches Ok(cas) ==> cas.len() == 0
            ==> mtls::signer_fault(chain, ca_pem) == Some(
            ErrorView::Pem("no certificate in CA PEM"@),
        )),
        chain.len() > 0 ==> (mtls::pem_certificates(ca_pem) matches Ok(cas) ==> cas.len() > 0
            ==> mtls::certificate_fields(cas[0]) is Ok ==> mtls::certificate_fields(chain[0]) is Ok
            ==> (mtls::signature_fault(chain[0], cas[0]) matches Some(m) ==> mtls::signer_fault(
            chain,
            ca_pem,
        ) == Some(ErrorView::CertVerification(m)))),
        chain.len() > 0 ==> (mtls::pem_certificates(ca_pem) matches Ok(cas) ==> cas.len() > 0 ==> (
        mtls::certificate_fields(cas[0]) matches Err(m) ==> mtls::signer_fault(chain, ca_pem)
            == Some(ErrorView::CertVerification(m)))),
{
}

/// Roots are taken all or not at all: where each certificate in a text can be a root, they are
/// the roots, in their order; otherwise the first that cannot is the error.
pub proof fn roots_are_taken_all_or_none(certs: Seq<Seq<u8>>, i: int)
    requires
        0 <= i < certs.len(),
    ensures
        mtls::first_root_fault(certs) is None ==> mtls::root_fault(certs[i]) is None,
        (forall|j: int| 0 <= j < i ==> mtls::root_fault(#[trigger] certs[j]) is None) && (
        mtls::root_fault(certs[i]) is Some) ==> mtls::first_root_fault(certs) == mtls::root_fault(
            certs[i],
        ),
        (forall|j: int| 0 <= j < certs.len() ==> mtls::root_fault(#[trigger] certs[j]) is None)
            ==> mtls::first_root_fault(certs) is None,
    decreases certs.len(),
{
    let rest = certs.drop_first();
    if rest.len() > 0 {
        roots_are_taken_all_or_none(
            rest,
            if i > 0 {
                i - 1
            } else {
                0
            },
        );
        assert forall|j: int| 0 <= j < rest.len() implies #[trigger] rest[j] == certs[j + 1] by {}
        if i > 0 {
            assert(rest[i - 1] == certs[i]);
        }
        if forall|j: int| 0 <= j < certs.len() ==> mtls::root_fault(#[trigger] certs[j]) is None {
            assert forall|j: int| 0 <= j < rest.len() implies mtls::root_fault(
                #[trigger] rest[j],
            ) is None by {
                assert(rest[j] == certs[j + 1]);
            }
        }
        if i > 0 && forall|j: int| 0 <= j < i ==> mtls::root_fault(#[trigger] certs[j]) is None {
            assert(mtls::root_fault(certs[0]) is None);
            assert forall|j: int| 0 <= j < i - 1 implies mtls::root_fault(
                #[trigger] rest[j],
            ) is None by {
                assert(rest[j] == certs[j + 1]);
            }
        }
    } else {
        assert(mtls::first_root_fault(rest) is None);
    }
}

/// One end of a connection shows the certificates in the first text, proves them with the key
/// in the second, and trusts those in the third; it asks the other end for a certificate, and
/// speaks TLS 1.3 and nothing else. Where a text cannot be used, the error is that of the
/// first such text.
pub proof fn connections_are_made_of_their_texts(
    cert_pem: Seq<char>,
    key_pem: Seq<char>,
    roots_pem: Seq<char>,
)
    ensures
        ({
            let outcome = mtls::material_outcome(cert_pem, key_pem, roots_pem);
            let key_found = mtls::pem_private_key(key_pem);
            &&& outcome matches Ok(material) ==> {
                &&& mtls::pem_certificates(cert_pem) == Ok::<Seq<Seq<u8>>, Seq<char>>(
                    material.chain,
                )
                &&& material.key_pem == key_pem && key_found == Ok::<bool, Seq<char>>(true)
                &&& mtls::pem_certificates(roots_pem) == Ok::<Seq<Seq<u8>>, Seq<char>>(
                    material.trusted,
                )
                &&& mtls::first_root_fault(material.trusted) is None
                &&& material.peer is Required
                &&& material.versions.len() == 1 && material.versions[0] is Tls13
            }
            &&& outcome is Ok <==> {
                &&& mtls::pem_certificates(cert_pem) is Ok
                &&& key_found == Ok::<bool, Seq<char>>(true)
                &&& mtls::pem_certificates(roots_pem) matches Ok(roots) && mtls::first_root_fault(
                    roots,
                ) is None
            }
            &&& mtls::pem_certificates(cert_pem) matches Err(m) ==> outcome == Err::<
                mtls::TlsMaterial,
                ErrorView,
            >(ErrorView::Pem(m))
            &&& mtls::pem_certificates(cert_pem) is Ok ==> {
                &&& key_found == Ok::<bool, Seq<char>>(false) ==> outcome == Err::<
                    mtls::TlsMaterial,
                    ErrorView,
                >(ErrorView::Pem("no private key found in PEM"@))
                &&& key_found matches Err(m) ==> outcome == Err::<mtls::TlsMaterial, ErrorView>(
                    ErrorView::Pem(m),
                )
                &&& key_found == Ok::<bool, Seq<char>>(true) ==> (mtls::pem_certificates(
                    roots_pem,
                ) matches Err(m) ==> outcome == Err::<mtls::TlsMaterial, ErrorView>(
                    ErrorView::Pem(m),
                ))
                &&& key_found == Ok::<bool, Seq<char>>(true) ==> (mtls::pem_certificates(
                    roots_pem,
                ) matches Ok(roots) ==> (mtls::first_root_fault(roots) matches Some(m) ==> outcome
                    == Err::<mtls::TlsMaterial, ErrorView>(ErrorView::CertVerification(m))))
            }
        }),
{
}

/// What the outside libraries hand over is looked at as it is, one by one.
pub proof fn lists_are_looked_at_one_by_one(
    certs: Seq<Vec<u8>>,
    names: Seq<Result<String, String>>,
    i: int,
    cert: String,
    e: crate::pki::error::Error,
)
    ensures
        mtls::der_bytes(certs).len() == certs.len(),
        0 <= i < certs.len() ==> mtls::der_bytes(certs)[i] == certs[i]@,
        mtls::name_views(names).len() == names.len(),
        0 <= i < names.len() ==> (names[i] matches Ok(s) ==> mtls::name_views(names)[i] == Ok::<
            Seq<char>,
            Seq<char>,
        >(s@)),
        0 <= i < names.len() ==> (names[i] matches Err(m) ==> mtls::name_views(names)[i] == Err::<
            Seq<char>,
            Seq<char>,
        >(m@)),
        csr::answer_view(Ok(cert)) == Ok::<Seq<char>, ErrorView>(cert@),
        csr::answer_view(Err(e)) == Err::<Seq<char>, ErrorView>(e@),
{
}

} // verus!
