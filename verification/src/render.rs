//! What a tailoring run that saved a variant reports, by how rendering ended.

use vstd::prelude::*;

verus! {

/// How rendering a saved variant ended.
#[derive(Clone, Copy, Debug, PartialEq, Eq)]
pub enum RenderEvent {
    /// The DOCX could not be rendered.
    RenderFailed,
    /// The DOCX rendered, but its locked sections did not validate.
    ValidationFailed,
    /// The DOCX validated, but the PDF could not be exported or counted.
    ExportFailed,
    /// The PDF came out at one page.
    OnePage,
    /// The PDF still overflowed one page on the last attempt.
    OverflowOnLastAttempt,
}

/// The statuses a run reports once rendering has ended.
pub struct RenderOutcome {
    /// Whether the run succeeded: only with a one-page PDF.
    pub success: bool,
    /// `completed` with a one-page PDF, else `partial`.
    pub tailoring_status: &'static str,
    /// `passed`, `failed`, or `not_run` for the locked-section check.
    pub validation_status: &'static str,
    /// `passed`, `failed`, or `not_run` for the one-page check.
    pub fit_status: &'static str,
    /// The stage whose failure is reported, when one failed.
    pub failed_stage: Option<&'static str>,
    /// Whether the PDF is listed as ready and published.
    pub pdf_ready: bool,
    /// Whether the validated DOCX is listed as the latest document and published in its place.
    pub publish_docx: bool,
    /// The message of the closing `complete` event, when the run sends one.
    pub closing_message: Option<&'static str>,
}

pub struct OutcomeView {
    pub success: bool,
    pub tailoring_status: Seq<char>,
    pub validation_status: Seq<char>,
    pub fit_status: Seq<char>,
    pub failed_stage: Option<Seq<char>>,
    pub pdf_ready: bool,
    pub publish_docx: bool,
    pub closing_message: Option<Seq<char>>,
}

pub open spec fn opt_str(s: Option<&'static str>) -> Option<Seq<char>> {
    match s {
        Some(t) => Some(t@),
        None => None,
    }
}

impl View for RenderOutcome {
    type V = OutcomeView;

    open spec fn view(&self) -> OutcomeView {
        OutcomeView {
            success: self.success,
            tailoring_status: self.tailoring_status@,
            validation_status: self.validation_status@,
            fit_status: self.fit_status@,
            failed_stage: opt_str(self.failed_stage),
            pdf_ready: self.pdf_ready,
            publish_docx: self.publish_docx,
            closing_message: opt_str(self.closing_message),
        }
    }
}

pub const COMPLETED_MESSAGE: &'static str = "Resume pipeline completed successfully.";

pub const DOCX_ONLY_MESSAGE: &'static str = "Validated DOCX saved; PDF is not ready.";

/// The outcome of each event. A one-page PDF completes the run; every other ending leaves it
/// partial. A failed render or locked-section check publishes nothing and sends no closing
/// event; once the DOCX has validated, a PDF failure still publishes the DOCX and closes the
/// run.
pub open spec fn outcome_of(e: RenderEvent) -> OutcomeView {
    match e {
        RenderEvent::RenderFailed => OutcomeView {
            success: false,
            tailoring_status: "partial"@,
            validation_status: "not_run"@,
            fit_status: "not_run"@,
            failed_stage: Some("docx_render"@),
            pdf_ready: false,
            publish_docx: false,
            closing_message: None,
        },
        RenderEvent::ValidationFailed => OutcomeView {
            success: false,
            tailoring_status: "partial"@,
            validation_status: "failed"@,
            fit_status: "not_run"@,
            failed_stage: Some("locked_validation"@),
            pdf_ready: false,
            publish_docx: false,
            closing_message: None,
        },
        RenderEvent::ExportFailed | RenderEvent::OverflowOnLastAttempt => OutcomeView {
            success: false,
            tailoring_status: "partial"@,
            validation_status: "passed"@,
            fit_status: "failed"@,
            failed_stage: Some("pdf_fit"@),
            pdf_ready: false,
            publish_docx: true,
            closing_message: Some(DOCX_ONLY_MESSAGE@),
        },
        RenderEvent::OnePage => OutcomeView {
            success: true,
            tailoring_status: "completed"@,
            validation_status: "passed"@,
            fit_status: "passed"@,
            failed_stage: None,
            pdf_ready: true,
            publish_docx: false,
            closing_message: Some(COMPLETED_MESSAGE@),
        },
    }
}

/// `outcome_of(event)`.
pub fn render_outcome(event: RenderEvent) -> (r: RenderOutcome)
    ensures
        r@ == outcome_of(event),
{
    match event {
        RenderEvent::RenderFailed => RenderOutcome {
            success: false,
            tailoring_status: "partial",
            validation_status: "not_run",
            fit_status: "not_run",
            failed_stage: Some("docx_render"),
            pdf_ready: false,
            publish_docx: false,
            closing_message: None,
        },
        RenderEvent::ValidationFailed => RenderOutcome {
            success: false,
            tailoring_status: "partial",
            validation_status: "failed",
            fit_status: "not_run",
            failed_stage: Some("locked_validation"),
            pdf_ready: false,
            publish_docx: false,
            closing_message: None,
        },
        RenderEvent::ExportFailed | RenderEvent::OverflowOnLastAttempt => RenderOutcome {
            success: false,
            tailoring_status: "partial",
            validation_status: "passed",
            fit_status: "failed",
            failed_stage: Some("pdf_fit"),
            pdf_ready: false,
            publish_docx: true,
            closing_message: Some(DOCX_ONLY_MESSAGE),
        },
        RenderEvent::OnePage => RenderOutcome {
            success: true,
            tailoring_status: "completed",
            validation_status: "passed",
            fit_status: "passed",
            failed_stage: None,
            pdf_ready: true,
            publish_docx: false,
            closing_message: Some(COMPLETED_MESSAGE),
        },
    }
}

/// A run succeeds, and lists its PDF, exactly when it completed; it completed exactly when the
/// PDF came out at one page; and a DOCX is published in place of the PDF exactly when the DOCX
/// passed its locked-section check but the PDF did not pass its fit.
pub proof fn lemma_outcome_rules(e: RenderEvent)
    ensures
        outcome_of(e).success == (outcome_of(e).tailoring_status == "completed"@),
        outcome_of(e).pdf_ready == outcome_of(e).success,
        outcome_of(e).success == (e == RenderEvent::OnePage),
        outcome_of(e).publish_docx == (outcome_of(e).validation_status == "passed"@
            && outcome_of(e).fit_status == "failed"@),
{
    reveal_strlit("completed");
    reveal_strlit("partial");
    reveal_strlit("passed");
    reveal_strlit("failed");
    reveal_strlit("not_run");
    assert("completed"@[0] != "partial"@[0]);
    assert("passed"@[0] != "failed"@[0]);
    assert("passed"@[0] != "not_run"@[0]);
}

} // verus!
