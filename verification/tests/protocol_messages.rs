use easos_kernel::error::KernelError;
use easos_kernel::model::PluginSettings;
use easos_kernel::protocol::{
    admit_request, check_request_size, interpret_response, respond, ControlCommand, ControlData,
    ControlError, ControlRequest, ControlResponse, CONTROL_PROTOCOL_VERSION,
};

#[test]
fn requests_carry_the_protocol_version() {
    let request = ControlRequest::new(ControlCommand::Start { id: "clock".to_owned() });
    assert_eq!(request.protocol_version, CONTROL_PROTOCOL_VERSION);
    assert!(matches!(request.command, ControlCommand::Start { id } if id == "clock"));
}

#[test]
fn failures_carry_code_and_message() {
    let response = ControlResponse::failure(&KernelError::NotFound("clock".to_owned()));
    assert_eq!(response.protocol_version, 1);
    assert!(!response.ok);
    assert!(response.data.is_none());
    let error = response.error.unwrap();
    assert_eq!(error.code, "NOT_FOUND");
    assert_eq!(error.message, "plugin not found: clock");
}

#[test]
fn successes_carry_data() {
    let response = ControlResponse::success(ControlData::Config(PluginSettings::default()));
    assert!(response.ok);
    assert!(response.error.is_none());
    assert!(matches!(response.data, Some(ControlData::Config(_))));
    let response = respond(Err(KernelError::Conflict("busy".to_owned())));
    assert_eq!(response.error.unwrap().code, "CONFLICT");
}

#[test]
fn request_lines_are_bounded() {
    let refused = Err(KernelError::InvalidData("empty or oversized control request".to_owned()));
    assert_eq!(check_request_size(0), refused);
    assert_eq!(check_request_size(1), Ok(()));
    assert_eq!(check_request_size(1024 * 1024), Ok(()));
    assert_eq!(check_request_size(1024 * 1024 + 1), refused);
}

#[test]
fn requests_are_admitted_by_version() {
    let command = admit_request(Ok(ControlRequest::new(ControlCommand::List))).unwrap();
    assert!(matches!(command, ControlCommand::List));
    let old = ControlRequest { protocol_version: 2, command: ControlCommand::List };
    assert_eq!(
        admit_request(Ok(old)).err(),
        Some(KernelError::InvalidData("control protocol version 2 is unsupported".to_owned()))
    );
    assert_eq!(
        admit_request(Err("missing field `command`".to_owned())).err(),
        Some(KernelError::InvalidData(
            "invalid control request: missing field `command`".to_owned()
        ))
    );
}

#[test]
fn responses_are_interpreted_by_the_client() {
    let refused = ControlResponse::failure(&KernelError::Protected("kernel".to_owned()));
    assert_eq!(
        interpret_response(refused).err(),
        Some(KernelError::Unavailable(
            "PROTECTED_PLUGIN: protected plugin cannot be changed: kernel".to_owned()
        ))
    );
    let ok = ControlResponse::success(ControlData::Config(PluginSettings::default()));
    assert!(matches!(interpret_response(ok), Ok(ControlData::Config(_))));
    let empty = ControlResponse { protocol_version: 1, ok: true, data: None, error: None };
    assert_eq!(
        interpret_response(empty).err(),
        Some(KernelError::Internal("daemon response has no data".to_owned()))
    );
    let newer = ControlResponse {
        protocol_version: 3,
        ok: false,
        data: None,
        error: Some(ControlError { code: "X".to_owned(), message: "y".to_owned() }),
    };
    assert_eq!(
        interpret_response(newer).err(),
        Some(KernelError::InvalidData("daemon returned control protocol version 3".to_owned()))
    );
}

#[test]
fn error_codes_and_messages() {
    let cases = [
        (KernelError::InvalidData("x".to_owned()), "INVALID_DATA", "invalid data: x"),
        (KernelError::NotFound("x".to_owned()), "NOT_FOUND", "plugin not found: x"),
        (KernelError::AlreadyExists("x".to_owned()), "ALREADY_EXISTS", "plugin already exists: x"),
        (KernelError::Protected("x".to_owned()), "PROTECTED_PLUGIN", "protected plugin cannot be changed: x"),
        (KernelError::Dependency("x".to_owned()), "DEPENDENCY_ERROR", "dependency error: x"),
        (KernelError::Conflict("x".to_owned()), "CONFLICT", "operation conflict: x"),
        (KernelError::Unavailable("x".to_owned()), "UNAVAILABLE", "daemon unavailable: x"),
        (KernelError::Io("x".to_owned()), "IO_ERROR", "I/O error: x"),
        (KernelError::Json("x".to_owned()), "INVALID_DATA", "JSON error: x"),
        (KernelError::Internal("x".to_owned()), "INTERNAL", "internal error: x"),
    ];
    for (error, code, message) in cases {
        assert_eq!(error.code(), code);
        assert_eq!(error.message(), message);
    }
}
