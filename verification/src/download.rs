use vstd::prelude::*;
use crate::text::{chars_of, chars_contain, contains_text};

verus! {

/// `s` with every character replaced by its lowercase mapping, as
/// `str::to_lowercase` gives it.
pub uninterp spec fn unicode_lowercase(s: Seq<char>) -> Seq<char>;

/// `str::to_lowercase`. Trusted: the text that `unicode_lowercase` names for
/// `s`; nothing more is claimed of the Unicode mapping.
#[verifier::external_body]
fn lowercase(s: &str) -> (r: String)
    ensures
        r@ == unicode_lowercase(s@),
{
    s.to_lowercase()
}

/// Whether lowercase text mentions "certificate verify failed",
/// "certificate" or "tls".
pub open spec fn mentions_tls_failure(lowered: Seq<char>) -> bool {
    contains_text(lowered, "certificate verify failed"@) || contains_text(lowered, "certificate"@)
        || contains_text(lowered, "tls"@)
}

/// Whether an error message reports a failed TLS certificate check: its
/// lowercase form mentions "certificate verify failed", "certificate" or
/// "tls".
pub open spec fn reports_tls_failure(message: Seq<char>) -> bool {
    mentions_tls_failure(unicode_lowercase(message))
}

/// Whether the lowercase text of an error message mentions "certificate
/// verify failed", "certificate" or "tls".
pub fn lowered_text_mentions_tls(lowered: &str) -> (r: bool)
    ensures
        r == mentions_tls_failure(lowered@),
{
    let cs = chars_of(lowered);
    chars_contain(&cs, &chars_of("certificate verify failed")) || chars_contain(
        &cs,
        &chars_of("certificate"),
    ) || chars_contain(&cs, &chars_of("tls"))
}

/// Whether the message of a failed download reports a failed TLS certificate
/// check.
pub fn is_tls_verification_error(message: &str) -> (r: bool)
    ensures
        r == reports_tls_failure(message@),
{
    let low = lowercase(message);
    lowered_text_mentions_tls(low.as_str())
}

/// Whether a download checks the server's certificate.
#[derive(Debug, Clone, Copy, PartialEq, Eq, Structural)]
pub enum CertificateCheck {
    Enforced,
    Skipped,
}

/// What to do after a download failed.
#[derive(Debug, Clone, Copy, PartialEq, Eq, Structural)]
pub enum DownloadStep {
    /// Try again without checking the certificate.
    RetryWithoutCertificateCheck,
    /// Stop; `report` says whether to announce that the download failed.
    GiveUp { report: bool },
}

/// The step after a download with `check` failed with `error_message`: a
/// checked download that failed its TLS certificate check is tried once more
/// unchecked; a failed unchecked retry is reported; other failures end the
/// download as they are.
pub fn after_failed_download(check: CertificateCheck, error_message: &str) -> (r: DownloadStep)
    ensures
        r == match check {
            CertificateCheck::Enforced => if reports_tls_failure(error_message@) {
                DownloadStep::RetryWithoutCertificateCheck
            } else {
                DownloadStep::GiveUp { report: false }
            },
            CertificateCheck::Skipped => DownloadStep::GiveUp { report: true },
        },
{
    match check {
        CertificateCheck::Enforced => if is_tls_verification_error(error_message) {
            DownloadStep::RetryWithoutCertificateCheck
        } else {
            DownloadStep::GiveUp { report: false }
        },
        CertificateCheck::Skipped => DownloadStep::GiveUp { report: true },
    }
}

} // verus!
