//! What the HTTPS client of a gateway needs decided: the identity it
//! presents, and which answers count as success.

use vstd::prelude::*;

verus! {

/// Whether an HTTP status code reports success: 200 to 299.
pub open spec fn spec_is_success(status: u16) -> bool {
    200 <= status < 300
}

/// Whether an HTTP status code reports success: 200 to 299.
pub fn is_success(status: u16) -> (success: bool)
    ensures
        success == spec_is_success(status),
{
    200 <= status && status < 300
}

/// An answer that did not report success.
#[derive(Debug)]
pub struct RequestFailure {
    /// The HTTP status of the answer.
    pub status: u16,
    /// The body of the answer.
    pub body: String,
}

/// The model of what `check_response` returns.
pub open spec fn checked_view(checked: Result<String, RequestFailure>) -> Result<
    Seq<char>,
    (u16, Seq<char>),
> {
    match checked {
        Ok(body) => Ok(body@),
        Err(failure) => Err((failure.status, failure.body@)),
    }
}

/// Judges the answer to a request: the body of an answer that reports
/// success, and a failure that holds status and body of any other.
pub fn check_response(status: u16, body: String) -> (checked: Result<String, RequestFailure>)
    ensures
        checked_view(checked) == if spec_is_success(status) {
            Ok::<Seq<char>, (u16, Seq<char>)>(body@)
        } else {
            Err::<Seq<char>, (u16, Seq<char>)>((status, body@))
        },
{
    if is_success(status) {
        Ok(body)
    } else {
        Err(RequestFailure { status, body })
    }
}

/// The PEM text of a client identity: the certificate followed by the
/// private key.
pub fn identity_pem(cert_pem: &[u8], key_pem: &[u8]) -> (pem: Vec<u8>)
    ensures
        pem@ == cert_pem@ + key_pem@,
{
    let mut pem: Vec<u8> = Vec::new();
    let mut i: usize = 0;
    while i < cert_pem.len()
        invariant
            i <= cert_pem.len(),
            pem@ == cert_pem@.take(i as int),
        decreases cert_pem.len() - i,
    {
        pem.push(cert_pem[i]);
        assert(pem@ =~= cert_pem@.take(i + 1));
        i += 1;
    }
    assert(cert_pem@.take(cert_pem.len() as int) =~= cert_pem@);
    let mut k: usize = 0;
    while k < key_pem.len()
        invariant
            k <= key_pem.len(),
            pem@ == cert_pem@ + key_pem@.take(k as int),
        decreases key_pem.len() - k,
    {
        pem.push(key_pem[k]);
        assert(pem@ =~= cert_pem@ + key_pem@.take(k + 1));
        k += 1;
    }
    assert(key_pem@.take(key_pem.len() as int) =~= key_pem@);
    pem
}

} // verus!
