// SPDX-License-Identifier: Apache-2.0
use openmso::proto;
use openmso::proto::ErrorCode;
use openmso::{Error, IoError, IoErrorKind, NngError, NngErrorKind};

#[test]
fn each_failure_reads_as_what_it_is() {
    let nng = NngError { kind: NngErrorKind::Other, text: "timed out".to_string() };
    assert_eq!(Error::Nng(nng).to_text(), "nng: timed out");
    assert_eq!(Error::Decode("bad tag".to_string()).to_text(), "malformed message: bad tag");
    let io = IoError { kind: IoErrorKind::Other, text: "no such file".to_string() };
    assert_eq!(Error::Io(io).to_text(), "no such file");
    assert_eq!(Error::Json("eof".to_string()).to_text(), "bad manifest JSON: eof");
    assert_eq!(Error::Protocol("no".to_string()).to_text(), "protocol error: no");
    let busy = proto::Error::busy("later".to_string());
    let name = ErrorCode::ErrorBusy.as_str_name();
    assert_eq!(Error::Remote(busy).to_text(), format!("{name}: later"));
    let odd = proto::Error { code: 4711, message: "what".to_string() };
    let name = ErrorCode::Unspecified.as_str_name();
    assert_eq!(Error::Remote(odd).to_text(), format!("{name}: what"));
}

#[test]
fn each_refusal_has_its_code() {
    let text = || "t".to_string();
    for (error, code) in [
        (proto::Error::invalid(text()), ErrorCode::ErrorInvalidRequest),
        (proto::Error::unsupported(text()), ErrorCode::ErrorUnsupported),
        (proto::Error::busy(text()), ErrorCode::ErrorBusy),
        (proto::Error::device(text()), ErrorCode::ErrorDevice),
        (proto::Error::new(ErrorCode::Unspecified, text()), ErrorCode::Unspecified),
    ] {
        assert_eq!(error.code, code as i32);
        assert_eq!(error.code, code.number());
        assert_eq!(error.message, "t");
        assert_eq!(ErrorCode::from_number(error.code), Some(code));
    }
}
