use extension_eyre::extensions::downcast;
use extension_eyre::Handler;
use eyre::{EyreHandler, Report};
use std::cell::Cell;
use std::error::Error;
use std::fmt;

#[derive(Debug, PartialEq)]
struct Retry(bool);

#[derive(Debug, PartialEq)]
struct Counter(usize);

#[derive(Debug)]
struct OutputError {
    code: usize,
}

impl fmt::Display for OutputError {
    fn fmt(&self, f: &mut fmt::Formatter<'_>) -> fmt::Result {
        f.write_str(&format!("cmd exited with non-zero status code {}", self.code))
    }
}

impl Error for OutputError {}

/// The handler with extensions, as a report would own it.
struct Installed(Handler<Box<dyn EyreHandler>>);

impl EyreHandler for Installed {
    fn debug(&self, error: &(dyn Error + 'static), f: &mut fmt::Formatter<'_>) -> fmt::Result {
        self.0.inner.debug(error, f)
    }
}

fn found(report: &Report) -> Option<&Handler<Box<dyn EyreHandler>>> {
    report.handler().downcast_ref::<Installed>().map(|installed| &installed.0)
}

fn found_mut(report: &mut Report) -> Option<&mut Handler<Box<dyn EyreHandler>>> {
    report.handler_mut().downcast_mut::<Installed>().map(|installed| &mut installed.0)
}

/// A report as eyre makes it when nobody installed anything: its handler is
/// eyre's own.
fn fail(code: usize) -> Report {
    Report::new(OutputError { code })
}

#[test]
fn a_report_with_another_handler_gives_nothing() {
    let mut report = fail(1);
    assert!(found(&report).is_none());
    assert!(downcast::extension_ref::<_, Retry>(found(&report)).is_none());
    assert!(downcast::extension_mut::<_, Counter>(found_mut(&mut report)).is_none());
    assert!(downcast::extensions_ref(found(&report)).is_none());
    assert!(downcast::extensions_mut(found_mut(&mut report)).is_none());
}

#[test]
fn a_report_with_another_handler_takes_nothing() {
    let mut report = fail(2);
    downcast::extension(found_mut(&mut report), Retry(true));
    assert!(downcast::extension_ref::<_, Retry>(found(&report)).is_none());
    downcast::remove_extension::<_, Retry>(found_mut(&mut report));
    assert!(downcast::extension_ref::<_, Retry>(found(&report)).is_none());
    assert_eq!(format!("{}", report), "cmd exited with non-zero status code 2");
}

#[test]
fn the_producer_never_runs_for_a_report_with_another_handler() {
    let mut report = fail(3);
    let calls = Cell::new(0u32);
    downcast::with_extension(found_mut(&mut report), || {
        calls.set(calls.get() + 1);
        Counter(1)
    });
    assert_eq!(calls.get(), 0);
    assert!(downcast::extension_ref::<_, Counter>(found(&report)).is_none());
}

#[test]
fn output_of_a_report_with_another_handler_stays_the_same() {
    let mut report = fail(4);
    let debug = format!("{:?}", report);
    let display = format!("{}", report);
    downcast::extension(found_mut(&mut report), Retry(true));
    downcast::with_extension(found_mut(&mut report), || Counter(1));
    downcast::remove_extension::<_, Retry>(found_mut(&mut report));
    assert_eq!(format!("{:?}", report), debug);
    assert_eq!(format!("{}", report), display);
    assert_eq!(display, "cmd exited with non-zero status code 4");
}

#[test]
fn a_boxed_handler_with_extensions_is_found_by_its_type() {
    let inner = eyre::DefaultHandler::default_with(&OutputError { code: 5 });
    let mut boxed: Box<dyn EyreHandler> = Box::new(Installed(Handler::new(inner)));
    assert!(boxed.downcast_ref::<Installed>().is_some());
    let handler = boxed.downcast_mut::<Installed>().map(|installed| &mut installed.0);
    downcast::extension(handler, Retry(true));
    let handler = boxed.downcast_ref::<Installed>().map(|installed| &installed.0);
    assert_eq!(downcast::extension_ref(handler), Some(&Retry(true)));
    let handler = boxed.downcast_mut::<Installed>().map(|installed| &mut installed.0);
    downcast::remove_extension::<_, Retry>(handler);
    let handler = boxed.downcast_ref::<Installed>().map(|installed| &installed.0);
    assert_eq!(downcast::extension_ref::<_, Retry>(handler), None);
}

#[test]
fn a_boxed_handler_formats_like_the_one_it_wraps() {
    struct Shown<'a>(&'a dyn EyreHandler, &'a OutputError);
    impl fmt::Debug for Shown<'_> {
        fn fmt(&self, f: &mut fmt::Formatter<'_>) -> fmt::Result {
            self.0.debug(self.1, f)
        }
    }
    let error = OutputError { code: 6 };
    let plain = eyre::DefaultHandler::default_with(&error);
    let expected = format!("{:?}", Shown(plain.as_ref(), &error));
    let inner = eyre::DefaultHandler::default_with(&error);
    let mut installed = Installed(Handler::new(inner));
    assert_eq!(format!("{:?}", Shown(&installed, &error)), expected);
    downcast::extension(Some(&mut installed.0), Retry(true));
    downcast::extension(Some(&mut installed.0), Counter(9));
    assert_eq!(format!("{:?}", Shown(&installed, &error)), expected);
    assert!(expected.contains("cmd exited with non-zero status code 6"));
}
