use mediator::common::{EventItem, MediatorError, Message};
use mediator::mediator::{Mediator, MediatorContext};
use mediator::service::{
    AnyMessage, BaseService, FlakyService, Service, ServicesResponse, StartServerCommand,
    StopServerCommand, START_SERVER_TAG, STOP_SERVER_TAG,
};

fn start_message() -> AnyMessage {
    AnyMessage::StartServer(StartServerCommand {
        message: Message::new(),
        host: "127.0.0.1".to_string(),
        port: 8080,
    })
}

fn stop_message() -> AnyMessage {
    AnyMessage::StopServer(StopServerCommand { message: Message::new() })
}

fn failure_event(label: &str) -> EventItem {
    EventItem::Failure(mediator::common::FailureEvent::new(label.to_string()))
}

fn failure_label(e: &EventItem) -> String {
    match e {
        EventItem::Failure(f) => f.error.clone(),
        EventItem::Success(_) => panic!("expected a failure event"),
    }
}

#[test]
fn message_tags_are_fixed() {
    assert_eq!(start_message().type_tag(), START_SERVER_TAG);
    assert_eq!(stop_message().type_tag(), STOP_SERVER_TAG);
    assert_ne!(START_SERVER_TAG, STOP_SERVER_TAG);
}

#[test]
fn routing_picks_earliest_registered_service() {
    // One service supporting Start, one supporting Start and Stop,
    // registered in that order: the first wins the Start-tagged message.
    let mut med: Mediator<BaseService> = Mediator::new();
    let mut first = BaseService::new();
    first.add_support(START_SERVER_TAG);
    let mut second = BaseService::new();
    second.add_support(START_SERVER_TAG);
    second.add_support(STOP_SERVER_TAG);
    med.register_service(first);
    med.register_service(second);
    let ctx = med.create_context();
    let r = med.handle_message(&start_message(), ctx);
    assert!(r.is_ok());
    assert_eq!(med.services()[0].handled_count, 1);
    assert_eq!(med.services()[1].handled_count, 0);
}

#[test]
fn routing_follows_reversed_registration_order() {
    // The same two services registered the other way round: now the
    // Start+Stop service is earliest and wins.
    let mut med: Mediator<BaseService> = Mediator::new();
    let mut first = BaseService::new();
    first.add_support(START_SERVER_TAG);
    let mut second = BaseService::new();
    second.add_support(START_SERVER_TAG);
    second.add_support(STOP_SERVER_TAG);
    med.register_service(second);
    med.register_service(first);
    let ctx = med.create_context();
    let r = med.handle_message(&start_message(), ctx);
    assert!(r.is_ok());
    assert_eq!(med.services()[0].handled_count, 1);
    assert_eq!(med.services()[1].handled_count, 0);
}

#[test]
fn unmatched_message_is_dropped_silently() {
    let mut med: Mediator<BaseService> = Mediator::new();
    let mut only_stop = BaseService::new();
    only_stop.add_support(STOP_SERVER_TAG);
    med.register_service(only_stop);
    let ctx = med.create_context();
    let r = med.handle_message(&start_message(), ctx);
    assert!(r.is_ok());
    assert_eq!(med.services()[0].handled_count, 0);
    let got = med.receive_event(ctx).unwrap();
    assert!(got.is_none());
}

#[test]
fn handling_a_supported_message_pushes_a_success_event() {
    let mut med: Mediator<BaseService> = Mediator::new();
    let mut svc = BaseService::new();
    svc.add_support(START_SERVER_TAG);
    med.register_service(svc);
    let ctx = med.create_context();
    med.handle_message(&start_message(), ctx).unwrap();
    let got = med.receive_event(ctx).unwrap();
    assert!(matches!(got, Some(EventItem::Success(_))));
}

#[test]
fn start_is_idempotent() {
    let mut svc = BaseService::new();
    assert!(!svc.is_running());
    assert!(svc.start().is_ok());
    assert!(svc.is_running());
    assert!(svc.start().is_ok());
    assert!(svc.is_running());
}

#[test]
fn stop_is_idempotent() {
    let mut svc = BaseService::new();
    svc.start().unwrap();
    assert!(svc.stop().is_ok());
    assert!(!svc.is_running());
    assert!(svc.stop().is_ok());
    assert!(!svc.is_running());
}

#[test]
fn started_flaky_service_starts_again_without_touching_its_resource() {
    // A service that would fail to acquire its resource still answers a
    // second start with success once it is running: the call is a no-op.
    let mut svc = FlakyService::new(false, false);
    svc.start().unwrap();
    svc.fail_start = true;
    assert!(svc.start().is_ok());
    assert!(svc.is_running());
}

#[test]
fn fail_fast_startup_leaves_later_services_stopped() {
    let mut med: Mediator<FlakyService> = Mediator::new();
    med.register_service(FlakyService::new(false, false));
    med.register_service(FlakyService::new(true, false));
    med.register_service(FlakyService::new(false, false));
    let r = med.start_all_services();
    assert!(matches!(r, Err(MediatorError::Lifecycle(_))));
    assert!(med.services()[0].is_running());
    assert!(!med.services()[1].is_running());
    assert!(!med.services()[2].is_running());
    assert_eq!(med.running_services_count(), 1);
}

#[test]
fn fail_fast_stop_leaves_later_services_running() {
    let mut med: Mediator<FlakyService> = Mediator::new();
    med.register_service(FlakyService::new(false, false));
    med.register_service(FlakyService::new(false, true));
    med.register_service(FlakyService::new(false, false));
    med.start_all_services().unwrap();
    assert_eq!(med.running_services_count(), 3);
    let r = med.stop_all_services();
    assert!(matches!(r, Err(MediatorError::Lifecycle(_))));
    assert!(!med.services()[0].is_running());
    assert!(med.services()[1].is_running());
    assert!(med.services()[2].is_running());
}

#[test]
fn resource_service_follows_lifecycle_commands() {
    let mut med: Mediator<FlakyService> = Mediator::new();
    let mut svc = FlakyService::new(false, false);
    svc.add_support(START_SERVER_TAG);
    svc.add_support(STOP_SERVER_TAG);
    med.register_service(svc);
    let ctx = med.create_context();
    med.handle_message(&start_message(), ctx).unwrap();
    assert!(med.services()[0].is_running());
    med.handle_message(&stop_message(), ctx).unwrap();
    assert!(!med.services()[0].is_running());
}

#[test]
fn routed_service_error_is_propagated() {
    let mut med: Mediator<FlakyService> = Mediator::new();
    let mut svc = FlakyService::new(true, false);
    svc.add_support(START_SERVER_TAG);
    med.register_service(svc);
    let ctx = med.create_context();
    let r = med.handle_message(&start_message(), ctx);
    assert!(matches!(r, Err(MediatorError::Lifecycle(_))));
    assert!(!med.services()[0].is_running());
}

#[test]
fn start_all_and_stop_all_cover_every_service() {
    let mut med: Mediator<BaseService> = Mediator::new();
    med.register_service(BaseService::new());
    med.register_service(BaseService::new());
    assert_eq!(med.running_services_count(), 0);
    med.start_all_services().unwrap();
    assert_eq!(med.running_services_count(), 2);
    med.stop_all_services().unwrap();
    assert_eq!(med.running_services_count(), 0);
}

#[test]
fn context_queue_is_fifo() {
    // Enqueue A, B, C; a single reader sees exactly A, B, C and then
    // nothing.
    let mut ctx = MediatorContext::new(7);
    ctx.dispatch_event(failure_event("A")).unwrap();
    ctx.dispatch_event(failure_event("B")).unwrap();
    ctx.dispatch_event(failure_event("C")).unwrap();
    assert_eq!(failure_label(&ctx.receive_event().unwrap()), "A");
    assert_eq!(failure_label(&ctx.receive_event().unwrap()), "B");
    assert_eq!(failure_label(&ctx.receive_event().unwrap()), "C");
    assert!(ctx.receive_event().is_none());
}

#[test]
fn drained_context_yields_events_in_order() {
    let mut ctx = MediatorContext::new(1);
    ctx.dispatch_event(failure_event("A")).unwrap();
    ctx.dispatch_event(failure_event("B")).unwrap();
    ctx.dispatch_event(failure_event("C")).unwrap();
    let evts = ctx.drain_events();
    let labels: Vec<String> = evts.iter().map(failure_label).collect();
    assert_eq!(labels, vec!["A", "B", "C"]);
    assert!(ctx.receive_event().is_none());
}

#[test]
fn closed_context_refuses_events() {
    let mut ctx = MediatorContext::new(3);
    ctx.close();
    let r = ctx.dispatch_event(failure_event("A"));
    assert!(matches!(r, Err(MediatorError::ChannelClosed)));
}

#[test]
fn contexts_are_isolated() {
    // Events enqueued on one context are never seen through another.
    let mut med: Mediator<BaseService> = Mediator::new();
    let a = med.create_context();
    let b = med.create_context();
    assert_ne!(a, b);
    med.dispatch_event(a, failure_event("only-for-a")).unwrap();
    assert!(med.receive_event(b).unwrap().is_none());
    let got = med.receive_event(a).unwrap().unwrap();
    assert_eq!(failure_label(&got), "only-for-a");
}

#[test]
fn mediator_context_queue_is_fifo_through_the_mediator() {
    let mut med: Mediator<BaseService> = Mediator::new();
    let ctx = med.create_context();
    med.dispatch_event(ctx, failure_event("A")).unwrap();
    med.dispatch_event(ctx, failure_event("B")).unwrap();
    med.dispatch_event(ctx, failure_event("C")).unwrap();
    assert_eq!(failure_label(&med.receive_event(ctx).unwrap().unwrap()), "A");
    assert_eq!(failure_label(&med.receive_event(ctx).unwrap().unwrap()), "B");
    assert_eq!(failure_label(&med.receive_event(ctx).unwrap().unwrap()), "C");
    assert!(med.receive_event(ctx).unwrap().is_none());
}

#[test]
fn removed_context_is_gone_with_its_events() {
    let mut med: Mediator<BaseService> = Mediator::new();
    let ctx = med.create_context();
    med.dispatch_event(ctx, failure_event("pending")).unwrap();
    med.remove_context(ctx);
    let r = med.receive_event(ctx);
    assert!(matches!(r, Err(MediatorError::NoSuchContext)));
}

#[test]
fn dispatch_to_unknown_context_is_refused() {
    let mut med: Mediator<BaseService> = Mediator::new();
    let r = med.dispatch_event(42, failure_event("nowhere"));
    assert!(matches!(r, Err(MediatorError::NoSuchContext)));
}

#[test]
fn services_info_reports_names_flags_and_tags() {
    let mut med: Mediator<BaseService> = Mediator::new();
    let mut svc = BaseService::new();
    svc.add_support(START_SERVER_TAG);
    svc.add_support(STOP_SERVER_TAG);
    med.register_service(svc);
    med.register_service(BaseService::new());
    med.start_all_services().unwrap();
    let infos = med.get_services_info();
    assert_eq!(infos.len(), 2);
    assert_eq!(infos[0].name, "Service_0");
    assert_eq!(infos[1].name, "Service_1");
    assert!(infos[0].is_running);
    assert_eq!(infos[0].supported_types, vec!["1", "2"]);
    assert!(infos[1].supported_types.is_empty());
    let response = ServicesResponse::new(infos, med.running_services_count());
    assert_eq!(response.total_count, 2);
    assert_eq!(response.running_count, 2);
}

#[test]
fn unregister_service_changes_nothing() {
    let mut med: Mediator<BaseService> = Mediator::new();
    med.register_service(BaseService::new());
    med.unregister_service(0);
    assert_eq!(med.services().len(), 1);
}
