//! Check-in orchestration: given the upstream response that the session
//! protocol settled on, extract the visitor's identity, keep the
//! membership bookkeeping, load the completion history for display, and
//! decide admission.

use vstd::prelude::*;

use crate::extract::extract_identity;
use crate::extract::spec_extract;
use crate::ledger::Ledger;
use crate::ledger::Taken;
use crate::ledger::Workshop;
use crate::ledger::spec_attendance;
use crate::ledger::spec_upsert;
use crate::policy::Decision;
use crate::policy::PolicyConfig;
use crate::policy::decide;
use crate::session::CheckInAtrium;

verus! {

/// The service's reply to one check-in attempt.
#[derive(Debug)]
pub enum CheckInResp {
    Allow {
        /// The raw upstream HTML, passed through for display.
        html: String,
        /// The visitor's display name, as extracted.
        name: String,
        /// The visitor's membership number, as extracted.
        gnum: u32,
        /// The workshops this member has completed.
        workshops: Vec<(Taken, Workshop)>,
    },
    Disallow {
        /// The raw upstream HTML (or terse message), usually an error text.
        html: String,
    },
}

/// Why a check-in attempt could not reach a decision.
#[derive(PartialEq, Eq, Structural, Clone, Copy, Debug)]
pub enum CheckInError {
    /// The upstream HTML did not carry the expected identity markers.
    ExtractionFailed,
}

/// Process the upstream response of one check-in attempt.
///
/// A terse response is surfaced as a denial carrying its message. A
/// detailed response has its HTML parsed for the visitor's identity —
/// failure there is the typed `ExtractionFailed`, and changes nothing.
/// On extraction the member row is upserted whatever the decision, the
/// completion history is loaded for display, and the policy decides:
/// admit yields `Allow` with name, number and history; anything else
/// yields `Disallow` carrying the upstream HTML.
pub fn check_in(resp: CheckInAtrium, ledger: &mut Ledger, config: &PolicyConfig) -> (r: Result<
    CheckInResp,
    CheckInError,
>)
    requires
        old(ledger)@.wf(),
    ensures
        final(ledger)@.wf(),
        (match resp {
            CheckInAtrium::Undetailed { success, message } => final(ledger)@ == old(ledger)@ && (
            r matches Ok(CheckInResp::Disallow { html }) && html@ == message@),
            CheckInAtrium::Detailed { success, html, eligibility } => (match spec_extract(html@) {
                None => final(ledger)@ == old(ledger)@ && r matches Err(
                    CheckInError::ExtractionFailed,
                ),
                Some(ident) => final(ledger)@ == spec_upsert(old(ledger)@, ident.1) && (match config
                    .spec_decision(eligibility.eligible, eligibility.code@, ident.1) {
                    Decision::Admit => r matches Ok(
                        CheckInResp::Allow { html: h, name, gnum, workshops },
                    ) && h@ == html@ && name@ == ident.0 && gnum == ident.1
                        && workshops@.map_values(|p: (Taken, Workshop)| (p.0@, p.1@))
                        == spec_attendance(spec_upsert(old(ledger)@, ident.1), ident.1),
                    Decision::Deny => r matches Ok(CheckInResp::Disallow { html: h }) && h@
                        == html@,
                }),
            }),
        }),
{
    match resp {
        CheckInAtrium::Undetailed { success: _, message } => Ok(
            CheckInResp::Disallow { html: message },
        ),
        CheckInAtrium::Detailed { success: _, html, eligibility } => {
            match extract_identity(html.as_str()) {
                None => Err(CheckInError::ExtractionFailed),
                Some(ident) => {
                    let (name, gnum) = ident;
                    ledger.upsert_member(gnum);
                    let workshops = ledger.list_attendance(gnum);
                    match decide(eligibility.eligible, &eligibility.code, gnum, config) {
                        Decision::Admit => Ok(
                            CheckInResp::Allow { html, name, gnum, workshops },
                        ),
                        Decision::Deny => Ok(CheckInResp::Disallow { html }),
                    }
                },
            }
        },
    }
}

} // verus!
