//! The control protocol between the CLI and the kernel daemon: requests,
//! responses, and the rules each side applies to what it receives.
use vstd::prelude::*;
use vstd::string::*;

use crate::error::{failure_of, ErrorView, KernelError};
use crate::model::{Inventory, PluginSettings, PluginView};
use crate::text::{decimal, decimal_text};

verus! {

/// The version of the control protocol that both sides speak.
pub const CONTROL_PROTOCOL_VERSION: u32 = 1;

/// The largest request line the daemon reads, in bytes.
pub const MAX_CONTROL_MESSAGE_BYTES: usize = 1048576;

/// A control request: the protocol version and the command.
pub struct ControlRequest {
    pub protocol_version: u32,
    pub command: ControlCommand,
}

/// What a client asks the kernel to do.
pub enum ControlCommand {
    List,
    Status { id: String },
    Install { source: String },
    Uninstall { id: String },
    Start { id: String },
    Stop { id: String },
    SetAutostart { id: String, enabled: bool },
    GetConfig { id: String },
    SetConfig { id: String, key: String, value: serde_json::Value },
    UnsetConfig { id: String, key: String },
}

impl ControlRequest {
    /// A request for `command` in the current protocol version.
    pub fn new(command: ControlCommand) -> (r: ControlRequest)
        ensures
            r.protocol_version == 1,
            r.command == command,
    {
        ControlRequest { protocol_version: CONTROL_PROTOCOL_VERSION, command }
    }
}

/// What the kernel answers: data on success, an error otherwise.
pub struct ControlResponse {
    pub protocol_version: u32,
    pub ok: bool,
    pub data: Option<ControlData>,
    pub error: Option<ControlError>,
}

/// The data of a successful response.
pub enum ControlData {
    Inventory(Inventory),
    Plugin(PluginView),
    Config(PluginSettings),
}

/// The error of a failed response: the error's code and message.
pub struct ControlError {
    pub code: String,
    pub message: String,
}

/// A response that reports the error `e`.
pub open spec fn is_failure_for(r: &ControlResponse, e: ErrorView) -> bool {
    &&& r.protocol_version == 1
    &&& !r.ok
    &&& r.data is None
    &&& r.error matches Some(ce) && ce.code@ == e.code() && ce.message@ == e.message()
}

impl ControlResponse {
    /// A successful response carrying `data`.
    pub fn success(data: ControlData) -> (r: ControlResponse)
        ensures
            r.protocol_version == 1,
            r.ok,
            r.data == Some(data),
            r.error is None,
    {
        ControlResponse {
            protocol_version: CONTROL_PROTOCOL_VERSION,
            ok: true,
            data: Some(data),
            error: None,
        }
    }

    /// A failed response reporting `error` by its code and message.
    pub fn failure(error: &KernelError) -> (r: ControlResponse)
        ensures
            is_failure_for(&r, error@),
    {
        ControlResponse {
            protocol_version: CONTROL_PROTOCOL_VERSION,
            ok: false,
            data: None,
            error: Some(ControlError { code: error.code().to_owned(), message: error.message() }),
        }
    }
}

/// The response to the outcome of a command.
pub fn respond(outcome: Result<ControlData, KernelError>) -> (r: ControlResponse)
    ensures
        match outcome {
            Ok(d) => r.protocol_version == 1 && r.ok && r.data == Some(d) && r.error is None,
            Err(e) => is_failure_for(&r, e@),
        },
{
    match outcome {
        Ok(data) => ControlResponse::success(data),
        Err(e) => ControlResponse::failure(&e),
    }
}

/// The daemon reads one request line; an empty or oversized one is refused.
pub fn check_request_size(count: usize) -> (r: Result<(), KernelError>)
    ensures
        failure_of(r) == (if count == 0 || count > 1048576 {
            Some(ErrorView::InvalidData("empty or oversized control request"@))
        } else {
            None
        }),
{
    if count == 0 || count > MAX_CONTROL_MESSAGE_BYTES {
        Err(KernelError::InvalidData("empty or oversized control request".to_owned()))
    } else {
        Ok(())
    }
}

/// What the daemon makes of a request line that it tried to parse: the
/// parse error's message, or the request.
pub open spec fn admitted(parsed: Result<ControlRequest, Seq<char>>) -> Result<ControlCommand, ErrorView> {
    match parsed {
        Err(message) => Err(ErrorView::InvalidData("invalid control request: "@ + message)),
        Ok(request) => if request.protocol_version == 1 {
            Ok(request.command)
        } else {
            Err(
                ErrorView::InvalidData(
                    "control protocol version "@ + decimal(request.protocol_version as nat)
                        + " is unsupported"@,
                ),
            )
        },
    }
}

/// Accepts a parsed request in the current protocol version.
pub fn admit_request(parsed: Result<ControlRequest, String>) -> (r: Result<ControlCommand, KernelError>)
    ensures
        match admitted(
            match parsed {
                Ok(q) => Ok(q),
                Err(m) => Err(m@),
            },
        ) {
            Ok(c) => r == Ok::<ControlCommand, KernelError>(c),
            Err(e) => r matches Err(x) && x@ == e,
        },
{
    match parsed {
        Err(message) => {
            let mut m = "invalid control request: ".to_owned();
            m.append(message.as_str());
            Err(KernelError::InvalidData(m))
        },
        Ok(request) => {
            if request.protocol_version == CONTROL_PROTOCOL_VERSION {
                Ok(request.command)
            } else {
                let mut m = "control protocol version ".to_owned();
                m.append(decimal_text(request.protocol_version as u64).as_str());
                m.append(" is unsupported");
                Err(KernelError::InvalidData(m))
            }
        },
    }
}

/// What the client makes of the daemon's response: a response in another
/// protocol version is invalid, an error becomes an unavailable-daemon
/// error with the error's code and message, and a success without data is
/// an internal error.
pub open spec fn interpretation(r: &ControlResponse) -> Result<ControlData, ErrorView> {
    if r.protocol_version != 1 {
        Err(
            ErrorView::InvalidData(
                "daemon returned control protocol version "@ + decimal(r.protocol_version as nat),
            ),
        )
    } else if r.error is Some {
        Err(ErrorView::Unavailable(r.error->0.code@ + ": "@ + r.error->0.message@))
    } else if r.data is None {
        Err(ErrorView::Internal("daemon response has no data"@))
    } else {
        Ok(r.data->0)
    }
}

/// Takes the data out of the daemon's response.
pub fn interpret_response(response: ControlResponse) -> (r: Result<ControlData, KernelError>)
    ensures
        match interpretation(&response) {
            Ok(d) => r == Ok::<ControlData, KernelError>(d),
            Err(e) => r matches Err(x) && x@ == e,
        },
{
    if response.protocol_version != CONTROL_PROTOCOL_VERSION {
        let mut m = "daemon returned control protocol version ".to_owned();
        m.append(decimal_text(response.protocol_version as u64).as_str());
        return Err(KernelError::InvalidData(m));
    }
    let ControlResponse { protocol_version: _, ok: _, data, error } = response;
    if let Some(e) = error {
        let mut m = e.code;
        m.append(": ");
        m.append(e.message.as_str());
        return Err(KernelError::Unavailable(m));
    }
    match data {
        Some(d) => Ok(d),
        None => Err(KernelError::Internal("daemon response has no data".to_owned())),
    }
}

/// Law: the client reads back the data of a successful response.
pub proof fn lemma_success_round_trip(r: &ControlResponse, d: ControlData)
    requires
        r.protocol_version == 1,
        r.ok,
        r.data == Some(d),
        r.error is None,
    ensures
        interpretation(r) == Ok::<ControlData, ErrorView>(d),
{
}

/// Law: the client reports a refused request as an unavailable daemon,
/// with the refusal's code and message.
pub proof fn lemma_failure_round_trip(r: &ControlResponse, e: ErrorView)
    requires
        is_failure_for(r, e),
    ensures
        interpretation(r) == Err::<ControlData, ErrorView>(
            ErrorView::Unavailable(e.code() + ": "@ + e.message()),
        ),
{
}

/// Law: the daemon accepts exactly the requests of its protocol version and
/// hands on their command unchanged.
pub proof fn lemma_admits_current_version(request: ControlRequest)
    ensures
        (admitted(Ok(request)) is Ok) == (request.protocol_version == 1),
        request.protocol_version == 1 ==> admitted(Ok(request)) == Ok::<ControlCommand, ErrorView>(
            request.command,
        ),
{
}

} // verus!
