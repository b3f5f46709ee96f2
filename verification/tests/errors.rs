use good_fences::js_err::{AnyError, JsErr, Status};
use good_fences::multi_err::{MultiErr, MultiResult};

#[test]
fn js_err_keeps_status_and_message() {
    let e = JsErr::invalid_arg(AnyError::msg("bad arg".to_string()));
    assert_eq!(e.status(), Status::InvalidArg);
    assert_eq!(e.message(), "bad arg");
    assert_eq!(e.to_display_string(), "Status: invalid_arg. bad arg");
}

#[test]
fn js_err_unwraps_nested_js_err() {
    let inner = JsErr::queue_full(AnyError::msg("full".to_string()));
    let outer = JsErr::generic_failure(AnyError::from_js_err(inner));
    assert_eq!(outer.status(), Status::QueueFull);
    assert_eq!(outer.message(), "full");
}

#[test]
fn status_texts() {
    assert_eq!(Status::OkStatus.as_str(), "ok");
    assert_eq!(Status::DetachableArraybufferExpected.as_str(), "detachable_arraybuffer_expected");
    assert_eq!(Status::NoExternalBuffersAllowed.as_str(), "no_external_buffers_allowed");
    assert_eq!(Status::BigintExpected.as_str(), "bigint_expected");
}

#[test]
fn test_into_anyhow_display_single() {
    let mut multi_err = MultiErr::new();
    let e = anyhow::Error::msg("this is the error").context("this is the context");
    multi_err.add_single(format!("{:#}", e));

    let as_str = multi_err.into_anyhow().to_display_string();
    assert_eq!(as_str, "this is the context: this is the error");
}

#[test]
fn test_into_anyhow_display_multi() {
    let mut multi_err = MultiErr::new();
    multi_err.add_single(format!(
        "{:#}",
        anyhow::Error::msg("this is the first error").context("this is the context")
    ));
    multi_err.add_single(format!("{:#}", anyhow::Error::msg("this is the second error")));

    let as_str = multi_err.into_anyhow().to_display_string();
    assert_eq!(
        as_str,
        "2 errors:
  1: this is the context: this is the first error
  2: this is the second error"
    )
}

#[test]
fn test_into_anyhow_display_multi_conext_chain() {
    let mut multi_err = MultiErr::new();
    multi_err.add_single(format!(
        "{:#}",
        anyhow::Error::msg("this is the first error").context("this is the context")
    ));
    multi_err.add_single(format!("{:#}", anyhow::Error::msg("this is the second error")));

    let as_str = format!(
        "{:#}",
        anyhow::Error::msg(multi_err.into_anyhow().to_display_string()).context("this is the outer context")
    );
    assert_eq!(
        as_str,
        "this is the outer context: 2 errors:
  1: this is the context: this is the first error
  2: this is the second error"
    )
}

#[test]
fn multi_err_collects_in_order() {
    let mut m: MultiErr<u32> = MultiErr::new();
    m.add_single(1);
    m.add_iter(vec![2, 3]);
    let v = m.extract_single((10u8, 4));
    assert_eq!(v, 10);
    let r = m.extract(MultiResult::with_errs("x", {
        let mut o = MultiErr::new();
        o.add_single(5);
        o
    }));
    assert_eq!(r, "x");
    assert!(m.len() == 5);
    assert_eq!(m.into_vec(), vec![1, 2, 3, 4, 5]);
}

#[test]
fn multi_err_into_result_ok_only_when_empty() {
    let m: MultiErr<String> = MultiErr::new();
    assert!(m.into_result().is_ok());
    let mut m2: MultiErr<String> = MultiErr::new();
    m2.add_single("e".to_string());
    assert!(m2.into_result().is_err());
    let r: Result<u8, MultiErr<String>> = MultiResult::from(3u8).into_result();
    assert_eq!(r.ok(), Some(3));
    let mut m3: MultiErr<String> = MultiErr::new();
    m3.add_single("only".to_string());
    assert!(MultiResult::with_errs(1, m3).into_anyhow().is_err());
}

#[test]
fn multi_err_report_counts_ten_and_more() {
    let mut m: MultiErr<String> = MultiErr::new();
    for i in 0..10 {
        m.add_single(format!("e{}", i));
    }
    let r = m.report();
    assert!(r.starts_with("10 errors:\n  1: e0\n  2: e1"));
    assert!(r.ends_with("\n  10: e9"));
}
