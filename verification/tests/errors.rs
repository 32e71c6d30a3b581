use libcommon::errors::Error;

fn t_absent() -> Result<(), Error> {
    Err(Error::Absent)
}

fn t_unsupported() -> Result<(), Error> {
    Err(Error::Unsupported("unsupported".into()))
}

fn t_reportable_bug() -> Result<(), Error> {
    Err(Error::ReportableBug("reportable bug".into()))
}

#[test]
fn test_error_enum() {
    match t_absent() {
        Err(Error::Absent) => {}
        _ => panic!("wrong error returned"),
    }
    match t_unsupported() {
        Err(Error::Unsupported(x)) => assert_eq!(x, "unsupported".to_owned()),
        _ => panic!("wrong error returned"),
    }
    match t_reportable_bug() {
        Err(Error::ReportableBug(x)) => assert_eq!(x, "reportable bug".to_owned()),
        _ => panic!("wrong error returned"),
    }
}

#[test]
fn test_none() -> Result<(), Error> {
    let option = Some(2);
    let _unwrapped = option.ok_or(Error::Absent)?;
    Ok(())
}

#[test]
fn equality_by_kind_and_payload() {
    assert!(Error::Absent == Error::Absent);
    assert!(Error::Unsupported("a".into()) == Error::Unsupported("a".into()));
    assert!(Error::Unsupported("a".into()) != Error::Unsupported("b".into()));
    assert!(Error::ReportableBug("x".into()) == Error::ReportableBug("x".into()));
    assert!(Error::Absent != Error::Unsupported("a".into()));
    assert!(Error::Unsupported("a".into()) != Error::ReportableBug("a".into()));
}

#[test]
fn io_errors_never_equal() {
    assert!(Error::Io("denied".into()) != Error::Io("denied".into()));
}

#[test]
fn absent_is_absent() {
    assert!(Error::Absent.is_absent());
    assert!(!Error::Io("gone".into()).is_absent());
    assert!(!Error::Unsupported("u".into()).is_absent());
}

#[test]
fn message_texts() {
    assert_eq!(Error::Absent.message(), "Not an error.");
    assert_eq!(
        Error::Unsupported("no removal".into()).message(),
        "Unsupported: no removal"
    );
    assert_eq!(
        Error::ReportableBug("index desync".into()).message(),
        "Unexpected bug has happened: index desync. PLEASE REPORT THIS BUG!"
    );
    assert_eq!(Error::Io("file gone".into()).message(), "IO error: file gone");
}

#[test]
fn clone_keeps_kind_and_payload() {
    let e = Error::Unsupported("dup".into());
    assert!(e.clone() == e);
    let io = Error::Io("x".into());
    // Io values never compare equal, a faithful clone included
    assert!(io.clone() != io);
    match io.clone() {
        Error::Io(m) => assert_eq!(m, "x"),
        _ => panic!("clone must keep the kind"),
    }
}
