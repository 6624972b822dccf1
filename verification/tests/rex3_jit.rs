use iris::rex3_jit::warmup_message;
use iris::rex3_jit::CompileRequest;
use iris::rex3_jit::RexJit;
use iris::rex3_jit::SendState;

#[test]
fn full_compile_queue_allows_retry() {
    let mut jit = RexJit::with_slots(1);
    assert_eq!(jit.request_compile_blocking(1, 2, 3), SendState::Sent);
    jit.request_compile(4, 5, 6);
    assert_eq!(jit.queued_count(), 1, "only the one that fills the queue");
    assert!(matches!(jit.next_request().unwrap(), CompileRequest::Compile(1, 2, 3)));
    assert_eq!(jit.finish_compile(None), 1);
    assert_eq!(jit.queued_count(), 0);
    jit.request_compile(4, 5, 6);
    assert_eq!(jit.queued_count(), 1);
    assert!(matches!(jit.next_request().unwrap(), CompileRequest::Compile(4, 5, 6)));
}

#[test]
fn compiled_shaders_are_found_until_they_are_disabled() {
    let mut jit = RexJit::new();
    assert_eq!(jit.lookup(1, 2, 3), None);
    jit.request_compile(1, 2, 3);
    assert_eq!(jit.lookup(1, 2, 3), None);
    assert_eq!(jit.wait_compiled(1, 2, 3), None);
    assert!(jit.next_request().is_some());
    assert_eq!(jit.finish_compile(Some((0x1000, 64))), 1);
    assert_eq!(jit.lookup(1, 2, 3), Some(0x1000));
    assert_eq!(jit.wait_compiled(1, 2, 3), Some(true));
    jit.disable_shader(1, 2, 3);
    assert_eq!(jit.lookup(1, 2, 3), None);
    jit.enable_shader(1, 2, 3);
    assert_eq!(jit.lookup(1, 2, 3), Some(0x1000));
    assert_eq!(jit.compiled_count(), 1);
}

#[test]
fn shaders_that_fail_are_not_tried_again() {
    let mut jit = RexJit::new();
    jit.request_compile(1, 2, 3);
    assert!(jit.next_request().is_some());
    assert_eq!(jit.finish_compile(None), 1);
    assert_eq!(jit.wait_compiled(1, 2, 3), Some(false));
    jit.request_compile(1, 2, 3);
    assert_eq!(jit.queued_count(), 0);
    assert!(jit.next_request().is_none());
}

#[test]
fn listings_are_sorted() {
    let mut jit = RexJit::new();
    for k in [3u32, 1, 2] {
        jit.request_compile(k, 0, 0);
    }
    let order: Vec<u32> = jit.shader_list().iter().map(|s| s.dm0).collect();
    assert_eq!(order, vec![1, 2, 3]);
    assert!(jit.shader_list().iter().all(|s| s.status == "queued"));
    assert!(jit.compiled_pairs().is_empty());
}

#[test]
fn warm_up_skips_what_is_known() {
    let mut jit = RexJit::with_slots(1);
    assert_eq!(jit.warm_up(1, 2, 3, true), SendState::Known);
    assert_eq!(jit.warm_up(1, 2, 3, false), SendState::Sent);
    assert_eq!(jit.warm_up(1, 2, 3, false), SendState::Known);
    assert_eq!(jit.warm_up(4, 5, 6, false), SendState::Waiting);
    assert_eq!(jit.retry_send(4, 5, 6), SendState::Waiting);
    assert!(jit.next_request().is_some());
    assert_eq!(jit.retry_send(4, 5, 6), SendState::Sent);
    assert_eq!(
        warmup_message(5, 2),
        "REX JIT: 5 profile shape(s): 2 already precompiled, 3 queued for Cranelift"
    );
    assert!(warmup_message(0, 0).starts_with("REX JIT: started"));
}

#[test]
fn a_closed_queue_takes_nothing() {
    let mut jit = RexJit::with_slots(2);
    jit.shutdown();
    assert!(matches!(jit.next_request(), Some(CompileRequest::Shutdown)));
    assert_eq!(jit.request_compile_blocking(1, 2, 3), SendState::Closed);
}

#[test]
fn nothing_comes_out_behind_a_stop() {
    let mut jit = RexJit::with_slots(4);
    jit.shutdown();
    assert_eq!(jit.request_compile_blocking(1, 2, 3), SendState::Sent);
    assert!(matches!(jit.next_request(), Some(CompileRequest::Shutdown)));
    assert!(jit.next_request().is_none());
    assert_eq!(jit.request_compile_blocking(4, 5, 6), SendState::Closed);
    jit.shutdown();
    assert!(jit.next_request().is_none());
    assert_eq!(jit.wait_compiled(1, 2, 3), None);
}
