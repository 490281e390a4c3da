//! What happens after the editor connects: the server is checked for the
//! support package, which is downloaded, uploaded and installed when it is
//! missing or out of date. Each step is decided here from the outcome of the
//! previous one; the caller performs the requests and shows the notices.
use vstd::prelude::*;
use crate::diagnostics::Severity;
use crate::http::{
    check_query, check_request, download_request, download_request_spec, install_query, install_request,
    upload_request, upload_request_spec, xar_version, xar_version_str, xquery_request_spec, HttpRequest,
    RequestView,
};
use crate::json::Json;
use crate::settings::{Settings, SettingsView};
use crate::text::{concat2, concat3};

verus! {

/// What the package query found on the server.
pub enum ServerStatus {
    /// The required version of the package is installed.
    UpToDate,
    /// Another version is installed.
    WrongVersion(String),
    NotInstalled,
    /// The server could not be asked; the reason why.
    Unreachable(String),
}

/// A message for the user.
pub struct Notice {
    pub severity: Severity,
    pub text: String,
}

/// What the caller does next.
pub enum StartupStep {
    /// Nothing more.
    Done,
    /// Download the package with this request, then report `Downloaded`.
    Download(HttpRequest),
    /// Upload the package with this request, then report `Uploaded`.
    Upload(HttpRequest),
    /// Run the installation with this request, then report `Installed`.
    Install(HttpRequest),
}

/// What came of the step the caller performed. Failures carry the error text.
pub enum StartupEvent {
    Checked(Result<Json, String>),
    Downloaded(Result<Vec<u8>, String>),
    Uploaded(Result<(), String>),
    Installed(Result<Json, String>),
}

/// The status that the package query's answer means: `true` means the package is up
/// to date, a string is the installed version, anything else that it is not
/// installed, and a failure that the server is unreachable.
pub open spec fn status_of(answer: Result<Json, String>) -> ServerStatus {
    match answer {
        Err(e) => ServerStatus::Unreachable(e),
        Ok(Json::Bool(true)) => ServerStatus::UpToDate,
        Ok(Json::Str(v)) => ServerStatus::WrongVersion(v),
        Ok(_) => ServerStatus::NotInstalled,
    }
}

/// The status that the package query's answer means.
pub fn server_status(answer: Result<Json, String>) -> (r: ServerStatus)
    ensures
        r == status_of(answer),
{
    match answer {
        Err(e) => ServerStatus::Unreachable(e),
        Ok(Json::Bool(true)) => ServerStatus::UpToDate,
        Ok(Json::Str(v)) => ServerStatus::WrongVersion(v),
        Ok(_) => ServerStatus::NotInstalled,
    }
}

/// The first request: the query about the support package.
pub fn startup_begin(settings: &Settings) -> (r: HttpRequest)
    ensures
        r@ == xquery_request_spec(settings@, check_query(), (5, 10)),
{
    check_request(settings)
}

/// A notice as plain values.
pub open spec fn notice_is(n: Option<Notice>, severity: Severity, text: Seq<char>) -> bool {
    n matches Some(x) && x.severity == severity && x.text@ == text
}

/// A step as plain values.
pub enum StepView {
    Done,
    Download(RequestView),
    Upload(RequestView),
    Install(RequestView),
}

/// The step as plain values.
pub open spec fn step_view(s: StartupStep) -> StepView {
    match s {
        StartupStep::Done => StepView::Done,
        StartupStep::Download(r) => StepView::Download(r@),
        StartupStep::Upload(r) => StepView::Upload(r@),
        StartupStep::Install(r) => StepView::Install(r@),
    }
}

/// What the library tells the user, and does next, after each event: a
/// package in order means nothing is shown and nothing done; an unreachable
/// server is a warning; a missing or outdated package is announced and
/// downloaded; the download is uploaded and then installed; every failure is
/// shown as an error and ends the process; a completed installation is
/// announced.
pub open spec fn startup_next_spec(s: SettingsView, event: StartupEvent, notice: Option<Notice>, step: StepView) -> bool {
    match event {
        StartupEvent::Checked(answer) => match status_of(answer) {
            ServerStatus::UpToDate => notice is None && step == StepView::Done,
            ServerStatus::Unreachable(reason) => notice_is(
                notice,
                Severity::Warning,
                "XQuery: cannot reach eXistdb at "@ + s.uri + " — linting and hover will not work. ("@ + reason@
                    + ")"@,
            ) && step == StepView::Done,
            ServerStatus::NotInstalled => notice_is(
                notice,
                Severity::Info,
                "XQuery: installing eXistdb support package (atom-editor v"@ + xar_version() + ")…"@,
            ) && step == StepView::Download(download_request_spec()),
            ServerStatus::WrongVersion(installed) => notice_is(
                notice,
                Severity::Info,
                "XQuery: updating eXistdb support package (installed: v"@ + installed@ + ", required: v"@
                    + xar_version() + ")…"@,
            ) && step == StepView::Download(download_request_spec()),
        },
        StartupEvent::Downloaded(Err(e)) => notice_is(
            notice,
            Severity::Error,
            "XQuery: failed to download support package: "@ + e@,
        ) && step == StepView::Done,
        StartupEvent::Downloaded(Ok(bytes)) => notice is None && step == StepView::Upload(
            upload_request_spec(s, bytes@),
        ),
        StartupEvent::Uploaded(Err(e)) => notice_is(
            notice,
            Severity::Error,
            "XQuery: support package installation failed: XAR upload failed: "@ + e@,
        ) && step == StepView::Done,
        StartupEvent::Uploaded(Ok(())) => notice is None && step == StepView::Install(
            xquery_request_spec(s, install_query(), (10, 30)),
        ),
        StartupEvent::Installed(Err(e)) => notice_is(
            notice,
            Severity::Error,
            "XQuery: support package installation failed: XAR install failed: "@ + e@,
        ) && step == StepView::Done,
        StartupEvent::Installed(Ok(_)) => notice_is(
            notice,
            Severity::Info,
            "XQuery: eXistdb support package v"@ + xar_version() + " installed successfully."@,
        ) && step == StepView::Done,
    }
}

fn notice(severity: Severity, text: String) -> (r: Option<Notice>)
    ensures
        notice_is(r, severity, text@),
{
    Some(Notice { severity, text })
}

/// The notice to show and the step to take after `event`.
pub fn startup_next(settings: &Settings, event: StartupEvent) -> (r: (Option<Notice>, StartupStep))
    ensures
        startup_next_spec(settings@, event, r.0, step_view(r.1)),
{
    match event {
        StartupEvent::Checked(answer) => match server_status(answer) {
            ServerStatus::UpToDate => (None, StartupStep::Done),
            ServerStatus::Unreachable(reason) => {
                let a = concat3("XQuery: cannot reach eXistdb at ", settings.uri.as_str(), " — linting and hover will not work. (");
                let t = concat3(a.as_str(), reason.as_str(), ")");
                (notice(Severity::Warning, t), StartupStep::Done)
            },
            ServerStatus::NotInstalled => {
                let t = concat3("XQuery: installing eXistdb support package (atom-editor v", xar_version_str(), ")…");
                (notice(Severity::Info, t), StartupStep::Download(download_request()))
            },
            ServerStatus::WrongVersion(installed) => {
                let a = concat3(
                    "XQuery: updating eXistdb support package (installed: v",
                    installed.as_str(),
                    ", required: v",
                );
                let t = concat3(a.as_str(), xar_version_str(), ")…");
                (notice(Severity::Info, t), StartupStep::Download(download_request()))
            },
        },
        StartupEvent::Downloaded(Err(e)) => {
            let t = concat2("XQuery: failed to download support package: ", e.as_str());
            (notice(Severity::Error, t), StartupStep::Done)
        },
        StartupEvent::Downloaded(Ok(bytes)) => (None, StartupStep::Upload(upload_request(settings, bytes))),
        StartupEvent::Uploaded(Err(e)) => {
            let t = concat2("XQuery: support package installation failed: XAR upload failed: ", e.as_str());
            (notice(Severity::Error, t), StartupStep::Done)
        },
        StartupEvent::Uploaded(Ok(())) => (None, StartupStep::Install(install_request(settings))),
        StartupEvent::Installed(Err(e)) => {
            let t = concat2("XQuery: support package installation failed: XAR install failed: ", e.as_str());
            (notice(Severity::Error, t), StartupStep::Done)
        },
        StartupEvent::Installed(Ok(_)) => {
            let t = concat3("XQuery: eXistdb support package v", xar_version_str(), " installed successfully.");
            (notice(Severity::Info, t), StartupStep::Done)
        },
    }
}

} // verus!
