use vstd::prelude::*;
use std::collections::VecDeque;
use crate::common::{EventItem, MediatorError};
use crate::service::{
    contains_tag, decimal_digits, service_name, tag_string, AnyMessage, Service, ServiceInfo,
};

verus! {

/// A dispatch-scoped event channel: an unbounded FIFO queue of events with
/// a unique identity. Producers append at the back; the one logical
/// consumer takes from the front. Once the consuming side is gone
/// (`close`), further dispatches are refused.
pub struct MediatorContext {
    id: u64,
    queue: VecDeque<EventItem>,
    shut: bool,
}

impl MediatorContext {
    /// The identity the mediator keys this context by.
    pub closed spec fn id(&self) -> u64 {
        self.id
    }

    /// The events now queued, oldest first.
    pub closed spec fn events(&self) -> Seq<EventItem> {
        self.queue@
    }

    /// Whether the consuming side is gone.
    pub closed spec fn is_closed(&self) -> bool {
        self.shut
    }

    pub fn new(id: u64) -> (c: MediatorContext)
        ensures
            c.id() == id,
            c.events() == Seq::<EventItem>::empty(),
            !c.is_closed(),
    {
        MediatorContext { id, queue: VecDeque::new(), shut: false }
    }

    pub fn context_id(&self) -> (i: u64)
        ensures
            i == self.id(),
    {
        self.id
    }

    /// Enqueue one event. Non-blocking and order-preserving: the event goes
    /// to the back of the queue. Fails exactly when the context is closed,
    /// and then changes nothing.
    pub fn dispatch_event(&mut self, event: EventItem) -> (r: Result<(), MediatorError>)
        ensures
            final(self).id() == old(self).id(),
            final(self).is_closed() == old(self).is_closed(),
            old(self).is_closed() ==> r == Err::<(), MediatorError>(MediatorError::ChannelClosed)
                && final(self).events() == old(self).events(),
            !old(self).is_closed() ==> r == Ok::<(), MediatorError>(()) && final(self).events()
                == old(self).events().push(event),
    {
        if self.shut {
            return Err(MediatorError::ChannelClosed);
        }
        self.queue.push_back(event);
        Ok(())
    }

    /// Take the oldest queued event, or `None` when the queue is drained.
    pub fn receive_event(&mut self) -> (r: Option<EventItem>)
        ensures
            final(self).id() == old(self).id(),
            final(self).is_closed() == old(self).is_closed(),
            old(self).events().len() == 0 ==> r is None && final(self).events() == old(self).events(),
            old(self).events().len() > 0 ==> r == Some(old(self).events()[0]) && final(self).events() == old(self).events().drop_first(),
    {
        self.queue.pop_front()
    }

    /// Mark the consuming side gone; later dispatches are refused.
    pub fn close(&mut self)
        ensures
            final(self).id() == old(self).id(),
            final(self).is_closed(),
            final(self).events() == old(self).events(),
    {
        self.shut = true;
    }

    /// Read the whole queue out in one pass. The result is exactly the
    /// queued sequence, oldest first: a single consumer draining a context
    /// observes the events in the order they were enqueued.
    pub fn drain_events(&mut self) -> (evts: Vec<EventItem>)
        ensures
            final(self).id() == old(self).id(),
            final(self).is_closed() == old(self).is_closed(),
            evts@ == old(self).events(),
            final(self).events() == Seq::<EventItem>::empty(),
    {
        let mut evts: Vec<EventItem> = Vec::new();
        loop
            invariant
                self.id() == old(self).id(),
                self.is_closed() == old(self).is_closed(),
                evts@ + self.events() == old(self).events(),
            ensures
                self.events().len() == 0,
                evts@ + self.events() == old(self).events(),
            decreases self.events().len(),
        {
            match self.receive_event() {
                Some(e) => {
                    evts.push(e);
                    proof {
                        assert(evts@ + self.events() =~= old(self).events());
                    }
                },
                None => {
                    break ;
                },
            }
        }
        proof {
            assert(evts@ =~= old(self).events());
        }
        evts
    }
}

/// The index of the earliest service in `services` whose declared tag set
/// contains `tag`, or `-1` when no registered service supports it. This is
/// the whole routing rule: single destination, first match wins.
pub open spec fn route_index<S: Service>(services: Seq<S>, tag: u64) -> int
    decreases services.len(),
{
    if services.len() == 0 {
        -1
    } else if services[0].supported().contains(tag) {
        0
    } else {
        let rest = route_index(services.drop_first(), tag);
        if rest == -1 {
            -1
        } else {
            rest + 1
        }
    }
}

/// Routing determinism, spelled out: `route_index` names the earliest
/// registered service supporting the tag, however many later services also
/// support it; `-1` means none does. Because routing is this function of
/// the registration sequence and the tag alone, any two dispatches of
/// equally tagged messages over the same registrations select the same
/// service.
pub proof fn lemma_route_first_match<S: Service>(services: Seq<S>, tag: u64)
    ensures
        route_index(services, tag) == -1 ==> forall|j: int|
            0 <= j < services.len() ==> !(#[trigger] services[j]).supported().contains(tag),
        route_index(services, tag) != -1 ==> {
            &&& 0 <= route_index(services, tag) < services.len()
            &&& services[route_index(services, tag)].supported().contains(tag)
            &&& forall|j: int|
                0 <= j < route_index(services, tag) ==> !(#[trigger] services[j]).supported()
                    .contains(tag)
        },
    decreases services.len(),
{
    if services.len() == 0 {
    } else if services[0].supported().contains(tag) {
    } else {
        lemma_route_first_match(services.drop_first(), tag);
        let rest = route_index(services.drop_first(), tag);
        if rest == -1 {
            assert forall|j: int|
                0 <= j < services.len() implies !(#[trigger] services[j]).supported().contains(
                tag,
            ) by {
                if j > 0 {
                    assert(services.drop_first()[j - 1] == services[j]);
                }
            }
        } else {
            assert(services[rest + 1] == services.drop_first()[rest]);
            assert forall|j: int|
                0 <= j < rest + 1 implies !(#[trigger] services[j]).supported().contains(tag) by {
                if j > 0 {
                    assert(services.drop_first()[j - 1] == services[j]);
                }
            }
        }
    }
}

/// The index of the first context in `contexts` whose id is `id`, or `-1`
/// when none carries it.
pub open spec fn context_index_of(contexts: Seq<MediatorContext>, id: u64) -> int
    decreases contexts.len(),
{
    if contexts.len() == 0 {
        -1
    } else if contexts[0].id() == id {
        0
    } else {
        let rest = context_index_of(contexts.drop_first(), id);
        if rest == -1 {
            -1
        } else {
            rest + 1
        }
    }
}

/// `context_index_of` names the first context carrying the id, or `-1`
/// when no context does.
pub proof fn lemma_context_index_of(contexts: Seq<MediatorContext>, id: u64)
    ensures
        context_index_of(contexts, id) == -1 ==> forall|j: int|
            0 <= j < contexts.len() ==> (#[trigger] contexts[j]).id() != id,
        context_index_of(contexts, id) != -1 ==> {
            &&& 0 <= context_index_of(contexts, id) < contexts.len()
            &&& contexts[context_index_of(contexts, id)].id() == id
            &&& forall|j: int|
                0 <= j < context_index_of(contexts, id) ==> (#[trigger] contexts[j]).id() != id
        },
    decreases contexts.len(),
{
    if contexts.len() == 0 {
    } else if contexts[0].id() == id {
    } else {
        lemma_context_index_of(contexts.drop_first(), id);
        let rest = context_index_of(contexts.drop_first(), id);
        if rest == -1 {
            assert forall|j: int| 0 <= j < contexts.len() implies (#[trigger] contexts[j]).id()
                != id by {
                if j > 0 {
                    assert(contexts.drop_first()[j - 1] == contexts[j]);
                }
            }
        } else {
            assert(contexts[rest + 1] == contexts.drop_first()[rest]);
            assert forall|j: int| 0 <= j < rest + 1 implies (#[trigger] contexts[j]).id() != id by {
                if j > 0 {
                    assert(contexts.drop_first()[j - 1] == contexts[j]);
                }
            }
        }
    }
}

/// How many of the services report themselves running.
pub open spec fn count_running<S: Service>(services: Seq<S>) -> nat
    decreases services.len(),
{
    if services.len() == 0 {
        0
    } else {
        count_running(services.drop_last()) + (if services.last().running() {
            1nat
        } else {
            0nat
        })
    }
}

/// Shape of the services list after a lifecycle loop aborted at index `k`:
/// every service before `k` was driven to running, service `k` kept the
/// running state it had, and every service after `k` was not touched at
/// all. This is fail-fast without rollback.
pub open spec fn started_up_to<S: Service>(pre: Seq<S>, post: Seq<S>, k: int) -> bool {
    &&& 0 <= k < pre.len()
    &&& post.len() == pre.len()
    &&& forall|i: int| 0 <= i < k ==> (#[trigger] post[i]).running()
    &&& post[k].running() == pre[k].running()
    &&& forall|i: int| k < i < pre.len() ==> #[trigger] post[i] == pre[i]
}

/// Shape of the services list after a stop loop aborted at index `k`:
/// every service before `k` was driven to stopped, service `k` kept its
/// running state, and the rest were left running as they were.
pub open spec fn stopped_up_to<S: Service>(pre: Seq<S>, post: Seq<S>, k: int) -> bool {
    &&& 0 <= k < pre.len()
    &&& post.len() == pre.len()
    &&& forall|i: int| 0 <= i < k ==> !(#[trigger] post[i]).running()
    &&& post[k].running() == pre[k].running()
    &&& forall|i: int| k < i < pre.len() ==> #[trigger] post[i] == pre[i]
}

/// Fail-fast startup, from all-stopped: when `start_all_services` starts
/// from a list with nothing running and aborts at service `k`, the
/// services before `k` report running and the services from `k` on report
/// stopped.
pub proof fn lemma_fail_fast_startup<S: Service>(pre: Seq<S>, post: Seq<S>, k: int)
    requires
        started_up_to(pre, post, k),
        forall|i: int| 0 <= i < pre.len() ==> !(#[trigger] pre[i]).running(),
    ensures
        forall|i: int| 0 <= i < k ==> (#[trigger] post[i]).running(),
        forall|i: int| k <= i < post.len() ==> !(#[trigger] post[i]).running(),
{
}

/// The central registry and router: the ordered list of registered
/// services, the live contexts keyed by their ids, and the counter the
/// next context id is drawn from. Registration order is the tie-break
/// order for routing and the order of every lifecycle sweep.
pub struct Mediator<S> {
    services: Vec<S>,
    contexts: Vec<MediatorContext>,
    next_context_id: u64,
}

impl<S: Service> Mediator<S> {
    /// The registered services, in registration order.
    pub closed spec fn services_seq(&self) -> Seq<S> {
        self.services@
    }

    /// The live contexts, in creation order.
    pub closed spec fn contexts_seq(&self) -> Seq<MediatorContext> {
        self.contexts@
    }

    /// The id the next created context will get.
    pub closed spec fn context_counter(&self) -> u64 {
        self.next_context_id
    }

    /// Well-formedness: every registered service keeps its own invariant,
    /// every live context id was drawn below the counter, and no two live
    /// contexts share an id.
    pub open spec fn wf(&self) -> bool {
        &&& forall|i: int|
            0 <= i < self.services_seq().len() ==> (#[trigger] self.services_seq()[i]).inv()
        &&& forall|i: int|
            0 <= i < self.contexts_seq().len() ==> (#[trigger] self.contexts_seq()[i]).id()
                < self.context_counter()
        &&& forall|i: int, j: int|
            0 <= i < j < self.contexts_seq().len() ==> (#[trigger] self.contexts_seq()[i]).id() != (
            #[trigger] self.contexts_seq()[j]).id()
    }

    pub fn new() -> (m: Mediator<S>)
        ensures
            m.wf(),
            m.services_seq() == Seq::<S>::empty(),
            m.contexts_seq() == Seq::<MediatorContext>::empty(),
            m.context_counter() == 0,
    {
        Mediator { services: Vec::new(), contexts: Vec::new(), next_context_id: 0 }
    }

    /// Append a service to the registration order. Overlapping tag sets
    /// are legal and no uniqueness check is made.
    pub fn register_service(&mut self, service: S)
        requires
            old(self).wf(),
            service.inv(),
        ensures
            final(self).wf(),
            final(self).services_seq() == old(self).services_seq().push(service),
            final(self).contexts_seq() == old(self).contexts_seq(),
            final(self).context_counter() == old(self).context_counter(),
    {
        self.services.push(service);
        proof {
            assert(self.contexts_seq() == old(self).contexts_seq());
            assert(self.context_counter() == old(self).context_counter());
            assert forall|i: int| 0 <= i < self.services_seq().len() implies (
            #[trigger] self.services_seq()[i]).inv() by {
                if i < old(self).services_seq().len() {
                    assert(self.services_seq()[i] == old(self).services_seq()[i]);
                } else {
                    assert(self.services_seq()[i] == service);
                }
            }
        }
    }

    /// The id the next created context would get; ids below it are spent.
    pub fn next_context_id(&self) -> (c: u64)
        ensures
            c == self.context_counter(),
    {
        self.next_context_id
    }

    /// Read-only view of the registered services, in registration order.
    pub fn services(&self) -> (s: &Vec<S>)
        ensures
            s@ == self.services_seq(),
    {
        &self.services
    }

    /// The removal hook of the design: deliberately not implemented, so it
    /// changes nothing.
    pub fn unregister_service(&mut self, _service_id: u64)
        requires
            old(self).wf(),
        ensures
            *final(self) == *old(self),
    {
    }

    /// Allocate a fresh context: a new id no live context carries, an
    /// empty open queue, appended to the context list. Always succeeds.
    pub fn create_context(&mut self) -> (id: u64)
        requires
            old(self).wf(),
            old(self).context_counter() < u64::MAX,
        ensures
            final(self).wf(),
            final(self).services_seq() == old(self).services_seq(),
            final(self).context_counter() == old(self).context_counter() + 1,
            id == old(self).context_counter(),
            final(self).contexts_seq().len() == old(self).contexts_seq().len() + 1,
            forall|j: int|
                0 <= j < old(self).contexts_seq().len() ==> final(self).contexts_seq()[j] == old(self).contexts_seq()[j],
            final(self).contexts_seq().last().id() == id,
            final(self).contexts_seq().last().events() == Seq::<EventItem>::empty(),
            !final(self).contexts_seq().last().is_closed(),
            forall|j: int|
                0 <= j < old(self).contexts_seq().len() ==> (#[trigger] old(self).contexts_seq()[j]).id() != id,
    {
        let id = self.next_context_id;
        self.next_context_id = self.next_context_id + 1;
        let context = MediatorContext::new(id);
        self.contexts.push(context);
        proof {
            assert(self.services_seq() == old(self).services_seq());
            assert forall|i: int| 0 <= i < self.contexts_seq().len() implies (
            #[trigger] self.contexts_seq()[i]).id() < self.context_counter() by {
                if i < old(self).contexts_seq().len() {
                    assert(self.contexts_seq()[i] == old(self).contexts_seq()[i]);
                } else {
                    assert(self.contexts_seq()[i] == context);
                }
            }
            assert forall|i: int, j: int| 0 <= i < j < self.contexts_seq().len() implies (
            #[trigger] self.contexts_seq()[i]).id() != (#[trigger] self.contexts_seq()[j]).id() by {
                assert(self.contexts_seq()[i] == old(self).contexts_seq()[i]);
                if j < old(self).contexts_seq().len() {
                    assert(self.contexts_seq()[j] == old(self).contexts_seq()[j]);
                } else {
                    assert(self.contexts_seq()[j] == context);
                    assert(old(self).contexts_seq()[i].id() < id);
                }
            }
        }
        id
    }

    /// Drop the context carrying `context_id`, discarding any unread
    /// events with it; without such a context nothing changes.
    pub fn remove_context(&mut self, context_id: u64)
        requires
            old(self).wf(),
        ensures
            final(self).wf(),
            final(self).services_seq() == old(self).services_seq(),
            final(self).context_counter() == old(self).context_counter(),
            context_index_of(old(self).contexts_seq(), context_id) == -1 ==> final(self).contexts_seq() == old(self).contexts_seq(),
            context_index_of(old(self).contexts_seq(), context_id) != -1 ==> final(self).contexts_seq() == old(self).contexts_seq().remove(
                context_index_of(old(self).contexts_seq(), context_id),
            ),
    {
        let mut i: usize = 0;
        while i < self.contexts.len()
            invariant
                old(self).wf(),
                *self == *old(self),
                i <= self.contexts@.len(),
                forall|j: int|
                    0 <= j < i ==> (#[trigger] old(self).contexts_seq()[j]).id() != context_id,
            decreases self.contexts@.len() - i,
        {
            if self.contexts[i].context_id() == context_id {
                proof {
                    lemma_context_index_of(old(self).contexts_seq(), context_id);
                    let c = context_index_of(old(self).contexts_seq(), context_id);
                    assert(old(self).contexts_seq()[i as int].id() == context_id);
                    if c == -1 {
                        assert(false);
                    } else if c < i as int {
                        assert(old(self).contexts_seq()[c].id() == context_id);
                        assert(false);
                    } else if c > i as int {
                        assert(old(self).contexts_seq()[i as int].id() != context_id);
                        assert(false);
                    }
                    assert(c == i as int);
                }
                let ghost pre = self.contexts@;
                self.contexts.remove(i);
                proof {
                    assert(pre == old(self).contexts_seq());
                    assert(self.contexts_seq() == pre.remove(i as int));
                    assert forall|a: int| 0 <= a < self.services_seq().len() implies (
                    #[trigger] self.services_seq()[a]).inv() by {
                        assert(self.services_seq()[a] == old(self).services_seq()[a]);
                    }
                    assert forall|a: int| 0 <= a < self.contexts_seq().len() implies (
                    #[trigger] self.contexts_seq()[a]).id() < self.context_counter() by {
                        let a0 = if a < i as int {
                            a
                        } else {
                            a + 1
                        };
                        assert(self.contexts_seq()[a] == old(self).contexts_seq()[a0]);
                        assert(old(self).contexts_seq()[a0].id() < old(self).context_counter());
                    }
                    assert forall|a: int, b: int| 0 <= a < b < self.contexts_seq().len() implies (
                    #[trigger] self.contexts_seq()[a]).id() != (
                    #[trigger] self.contexts_seq()[b]).id() by {
                        let a0 = if a < i as int {
                            a
                        } else {
                            a + 1
                        };
                        let b0 = if b < i as int {
                            b
                        } else {
                            b + 1
                        };
                        assert(self.contexts_seq()[a] == old(self).contexts_seq()[a0]);
                        assert(self.contexts_seq()[b] == old(self).contexts_seq()[b0]);
                        assert(old(self).contexts_seq()[a0].id() != old(self).contexts_seq()[b0].id());
                    }
                }
                return ;
            }
            i = i + 1;
        }
        proof {
            lemma_context_index_of(old(self).contexts_seq(), context_id);
            let c = context_index_of(old(self).contexts_seq(), context_id);
            if c != -1 {
                assert(old(self).contexts_seq()[c].id() == context_id);
                assert(false);
            }
        }
    }

    /// Route one type-erased message: scan the services in registration
    /// order and hand the message to the first one that declares support
    /// for its tag, propagating that service's result. A message no
    /// service supports is silently dropped: the call returns success and
    /// nothing at all changes. The named context must be live when a
    /// service is selected.
    pub fn handle_message(&mut self, message: &AnyMessage, context_id: u64) -> (r: Result<
        (),
        MediatorError,
    >)
        requires
            old(self).wf(),
        ensures
            final(self).wf(),
            final(self).context_counter() == old(self).context_counter(),
            final(self).services_seq().len() == old(self).services_seq().len(),
            final(self).contexts_seq().len() == old(self).contexts_seq().len(),
            forall|i: int|
                0 <= i < old(self).services_seq().len() ==> (
                #[trigger] final(self).services_seq()[i]).supported() == old(self).services_seq()[i].supported() && final(self).services_seq()[i].supported_list()
                    == old(self).services_seq()[i].supported_list(),
            route_index(old(self).services_seq(), message.tag()) == -1 ==> r == Ok::<
                (),
                MediatorError,
            >(()) && *final(self) == *old(self),
            route_index(old(self).services_seq(), message.tag()) != -1 ==> {
                let si = route_index(old(self).services_seq(), message.tag());
                &&& forall|j: int|
                    0 <= j < old(self).services_seq().len() && j != si ==> final(self).services_seq()[j] == old(self).services_seq()[j]
                &&& (context_index_of(old(self).contexts_seq(), context_id) == -1 ==> r == Err::<
                    (),
                    MediatorError,
                >(MediatorError::NoSuchContext) && *final(self) == *old(self))
                &&& (context_index_of(old(self).contexts_seq(), context_id) != -1 ==> {
                    let ci = context_index_of(old(self).contexts_seq(), context_id);
                    &&& forall|j: int|
                        0 <= j < old(self).contexts_seq().len() && j != ci ==> final(self).contexts_seq()[j] == old(self).contexts_seq()[j]
                    &&& final(self).contexts_seq()[ci].id() == old(self).contexts_seq()[ci].id()
                    &&& final(self).contexts_seq()[ci].is_closed() == old(self).contexts_seq()[ci].is_closed()
                    &&& old(self).contexts_seq()[ci].events().is_prefix_of(
                        final(self).contexts_seq()[ci].events(),
                    )
                    &&& S::handle_post(
                        old(self).services_seq()[si],
                        final(self).services_seq()[si],
                        old(self).contexts_seq()[ci],
                        final(self).contexts_seq()[ci],
                        *message,
                        r,
                    )
                })
            },
    {
        let tag = message.type_tag();
        let si = match find_first_supporting(&self.services, tag) {
            None => {
                return Ok(());
            },
            Some(si) => si,
        };
        let ci = match find_context(&self.contexts, context_id) {
            None => {
                return Err(MediatorError::NoSuchContext);
            },
            Some(ci) => ci,
        };
        let ghost pre_services = self.services@;
        let ghost pre_contexts = self.contexts@;
        let mut svc = self.services.remove(si);
        let mut ctx = self.contexts.remove(ci);
        let r = svc.handle(message, &mut ctx);
        let ghost svc_post = svc;
        let ghost ctx_post = ctx;
        self.services.insert(si, svc);
        self.contexts.insert(ci, ctx);
        proof {
            assert(pre_services == old(self).services_seq());
            assert(pre_contexts == old(self).contexts_seq());
            assert(self.context_counter() == old(self).context_counter());
            pre_services.remove_ensures(si as int);
            pre_services.remove(si as int).insert_ensures(si as int, svc_post);
            assert(self.services@ =~= pre_services.update(si as int, svc_post));
            assert(self.services_seq() == pre_services.update(si as int, svc_post));
            pre_contexts.remove_ensures(ci as int);
            pre_contexts.remove(ci as int).insert_ensures(ci as int, ctx_post);
            assert(self.contexts@ =~= pre_contexts.update(ci as int, ctx_post));
            assert(self.contexts_seq() == pre_contexts.update(ci as int, ctx_post));
            assert(self.services_seq()[si as int] == svc_post);
            assert(self.contexts_seq()[ci as int] == ctx_post);
            assert forall|i: int| 0 <= i < self.services_seq().len() implies (
            #[trigger] self.services_seq()[i]).inv() by {
                if i != si as int {
                    assert(self.services_seq()[i] == old(self).services_seq()[i]);
                }
            }
            assert forall|a: int| 0 <= a < self.contexts_seq().len() implies (
            #[trigger] self.contexts_seq()[a]).id() < self.context_counter() by {
                if a != ci as int {
                    assert(self.contexts_seq()[a] == old(self).contexts_seq()[a]);
                } else {
                    assert(self.contexts_seq()[a].id() == old(self).contexts_seq()[a].id());
                }
            }
            assert forall|a: int, b: int| 0 <= a < b < self.contexts_seq().len() implies (
            #[trigger] self.contexts_seq()[a]).id() != (#[trigger] self.contexts_seq()[b]).id() by {
                assert(self.contexts_seq()[a].id() == old(self).contexts_seq()[a].id());
                assert(self.contexts_seq()[b].id() == old(self).contexts_seq()[b].id());
            }
        }
        r
    }

    /// Start the services strictly in registration order. The first
    /// failure aborts the sweep at once — earlier services stay started,
    /// the failing one keeps the state it had, later ones are not touched
    /// — and is returned. When every start succeeds, every service
    /// reports running.
    pub fn start_all_services(&mut self) -> (r: Result<(), MediatorError>)
        requires
            old(self).wf(),
        ensures
            final(self).wf(),
            final(self).contexts_seq() == old(self).contexts_seq(),
            final(self).context_counter() == old(self).context_counter(),
            final(self).services_seq().len() == old(self).services_seq().len(),
            forall|i: int|
                0 <= i < old(self).services_seq().len() ==> (
                #[trigger] final(self).services_seq()[i]).supported() == old(self).services_seq()[i].supported() && final(self).services_seq()[i].supported_list()
                    == old(self).services_seq()[i].supported_list(),
            r is Ok ==> forall|i: int|
                0 <= i < final(self).services_seq().len() ==> (
                #[trigger] final(self).services_seq()[i]).running(),
            r is Ok ==> forall|i: int|
                0 <= i < old(self).services_seq().len() ==> #[trigger] S::start_post(
                    old(self).services_seq()[i],
                    final(self).services_seq()[i],
                    Ok::<(), MediatorError>(()),
                ),
            r is Err ==> exists|k: int|
                {
                    &&& #[trigger] started_up_to(
                        old(self).services_seq(),
                        final(self).services_seq(),
                        k,
                    )
                    &&& !old(self).services_seq()[k].running()
                    &&& S::start_post(
                        old(self).services_seq()[k],
                        final(self).services_seq()[k],
                        r,
                    )
                    &&& forall|i: int|
                        0 <= i < k ==> #[trigger] S::start_post(
                            old(self).services_seq()[i],
                            final(self).services_seq()[i],
                            Ok::<(), MediatorError>(()),
                        )
                },
    {
        let n = self.services.len();
        let mut i: usize = 0;
        while i < n
            invariant
                old(self).wf(),
                n == self.services@.len(),
                n == old(self).services@.len(),
                i <= n,
                self.contexts@ == old(self).contexts@,
                self.next_context_id == old(self).next_context_id,
                forall|j: int| 0 <= j < n ==> (#[trigger] self.services@[j]).inv(),
                forall|j: int|
                    0 <= j < n ==> (#[trigger] self.services@[j]).supported() == old(self).services@[j].supported() && self.services@[j].supported_list() == old(self).services@[j].supported_list(),
                forall|j: int| 0 <= j < i ==> (#[trigger] self.services@[j]).running(),
                forall|j: int|
                    0 <= j < i ==> #[trigger] S::start_post(
                        old(self).services@[j],
                        self.services@[j],
                        Ok::<(), MediatorError>(()),
                    ),
                forall|j: int| i <= j < n ==> #[trigger] self.services@[j] == old(self).services@[j],
            decreases n - i,
        {
            let ghost pre = self.services@;
            let mut svc = self.services.remove(i);
            let r = svc.start();
            let ghost svc_post = svc;
            self.services.insert(i, svc);
            proof {
                pre.remove_ensures(i as int);
                pre.remove(i as int).insert_ensures(i as int, svc_post);
                assert(self.services@ =~= pre.update(i as int, svc_post));
            }
            match r {
                Err(e) => {
                    proof {
                        assert(self.contexts_seq() == old(self).contexts_seq());
                        assert(self.context_counter() == old(self).context_counter());
                        assert(self.services_seq() == self.services@);
                        assert(old(self).services_seq() == old(self).services@);
                        assert(!old(self).services@[i as int].running());
                        assert(started_up_to(
                            old(self).services_seq(),
                            self.services_seq(),
                            i as int,
                        ));
                        assert(pre[i as int] == old(self).services@[i as int]);
                        assert(S::start_post(
                            old(self).services_seq()[i as int],
                            self.services_seq()[i as int],
                            r,
                        ));
                        assert forall|j: int| 0 <= j < i as int implies #[trigger] S::start_post(
                            old(self).services_seq()[j],
                            self.services_seq()[j],
                            Ok::<(), MediatorError>(()),
                        ) by {
                            assert(old(self).services_seq()[j] == old(self).services@[j]);
                            assert(self.services_seq()[j] == self.services@[j]);
                        }
                    }
                    return Err(e);
                },
                Ok(u) => {
                    proof {
                        assert(pre[i as int] == old(self).services@[i as int]);
                        assert(self.services@[i as int] == svc_post);
                        assert(u == ());
                        assert(r == Ok::<(), MediatorError>(()));
                        assert(S::start_post(pre[i as int], svc_post, r));
                        assert(S::start_post(
                            old(self).services@[i as int],
                            self.services@[i as int],
                            Ok::<(), MediatorError>(()),
                        ));
                    }
                },
            }
            i = i + 1;
        }
        proof {
            assert(self.contexts_seq() == old(self).contexts_seq());
            assert(self.context_counter() == old(self).context_counter());
            assert(self.services_seq() == self.services@);
            assert(old(self).services_seq() == old(self).services@);
            assert forall|j: int| 0 <= j < n as int implies #[trigger] S::start_post(
                old(self).services_seq()[j],
                self.services_seq()[j],
                Ok::<(), MediatorError>(()),
            ) by {
                assert(old(self).services_seq()[j] == old(self).services@[j]);
                assert(self.services_seq()[j] == self.services@[j]);
            }
        }
        Ok(())
    }

    /// Stop the services strictly in registration order, with the same
    /// fail-fast, no-rollback policy as startup: a failure partway leaves
    /// the remaining services running.
    pub fn stop_all_services(&mut self) -> (r: Result<(), MediatorError>)
        requires
            old(self).wf(),
        ensures
            final(self).wf(),
            final(self).contexts_seq() == old(self).contexts_seq(),
            final(self).context_counter() == old(self).context_counter(),
            final(self).services_seq().len() == old(self).services_seq().len(),
            forall|i: int|
                0 <= i < old(self).services_seq().len() ==> (
                #[trigger] final(self).services_seq()[i]).supported() == old(self).services_seq()[i].supported() && final(self).services_seq()[i].supported_list()
                    == old(self).services_seq()[i].supported_list(),
            r is Ok ==> forall|i: int|
                0 <= i < final(self).services_seq().len() ==> !(
                #[trigger] final(self).services_seq()[i]).running(),
            r is Ok ==> forall|i: int|
                0 <= i < old(self).services_seq().len() ==> #[trigger] S::stop_post(
                    old(self).services_seq()[i],
                    final(self).services_seq()[i],
                    Ok::<(), MediatorError>(()),
                ),
            r is Err ==> exists|k: int|
                {
                    &&& #[trigger] stopped_up_to(
                        old(self).services_seq(),
                        final(self).services_seq(),
                        k,
                    )
                    &&& old(self).services_seq()[k].running()
                    &&& S::stop_post(
                        old(self).services_seq()[k],
                        final(self).services_seq()[k],
                        r,
                    )
                    &&& forall|i: int|
                        0 <= i < k ==> #[trigger] S::stop_post(
                            old(self).services_seq()[i],
                            final(self).services_seq()[i],
                            Ok::<(), MediatorError>(()),
                        )
                },
    {
        let n = self.services.len();
        let mut i: usize = 0;
        while i < n
            invariant
                old(self).wf(),
                n == self.services@.len(),
                n == old(self).services@.len(),
                i <= n,
                self.contexts@ == old(self).contexts@,
                self.next_context_id == old(self).next_context_id,
                forall|j: int| 0 <= j < n ==> (#[trigger] self.services@[j]).inv(),
                forall|j: int|
                    0 <= j < n ==> (#[trigger] self.services@[j]).supported() == old(self).services@[j].supported() && self.services@[j].supported_list() == old(self).services@[j].supported_list(),
                forall|j: int| 0 <= j < i ==> !(#[trigger] self.services@[j]).running(),
                forall|j: int|
                    0 <= j < i ==> #[trigger] S::stop_post(
                        old(self).services@[j],
                        self.services@[j],
                        Ok::<(), MediatorError>(()),
                    ),
                forall|j: int| i <= j < n ==> #[trigger] self.services@[j] == old(self).services@[j],
            decreases n - i,
        {
            let ghost pre = self.services@;
            let mut svc = self.services.remove(i);
            let r = svc.stop();
            let ghost svc_post = svc;
            self.services.insert(i, svc);
            proof {
                pre.remove_ensures(i as int);
                pre.remove(i as int).insert_ensures(i as int, svc_post);
                assert(self.services@ =~= pre.update(i as int, svc_post));
            }
            match r {
                Err(e) => {
                    proof {
                        assert(self.contexts_seq() == old(self).contexts_seq());
                        assert(self.context_counter() == old(self).context_counter());
                        assert(self.services_seq() == self.services@);
                        assert(old(self).services_seq() == old(self).services@);
                        assert(old(self).services@[i as int].running());
                        assert(stopped_up_to(
                            old(self).services_seq(),
                            self.services_seq(),
                            i as int,
                        ));
                        assert(pre[i as int] == old(self).services@[i as int]);
                        assert(S::stop_post(
                            old(self).services_seq()[i as int],
                            self.services_seq()[i as int],
                            r,
                        ));
                        assert forall|j: int| 0 <= j < i as int implies #[trigger] S::stop_post(
                            old(self).services_seq()[j],
                            self.services_seq()[j],
                            Ok::<(), MediatorError>(()),
                        ) by {
                            assert(old(self).services_seq()[j] == old(self).services@[j]);
                            assert(self.services_seq()[j] == self.services@[j]);
                        }
                    }
                    return Err(e);
                },
                Ok(u) => {
                    proof {
                        assert(pre[i as int] == old(self).services@[i as int]);
                        assert(self.services@[i as int] == svc_post);
                        assert(u == ());
                        assert(r == Ok::<(), MediatorError>(()));
                        assert(S::stop_post(pre[i as int], svc_post, r));
                        assert(S::stop_post(
                            old(self).services@[i as int],
                            self.services@[i as int],
                            Ok::<(), MediatorError>(()),
                        ));
                    }
                },
            }
            i = i + 1;
        }
        proof {
            assert(self.contexts_seq() == old(self).contexts_seq());
            assert(self.context_counter() == old(self).context_counter());
            assert(self.services_seq() == self.services@);
            assert(old(self).services_seq() == old(self).services@);
            assert forall|j: int| 0 <= j < n as int implies #[trigger] S::stop_post(
                old(self).services_seq()[j],
                self.services_seq()[j],
                Ok::<(), MediatorError>(()),
            ) by {
                assert(old(self).services_seq()[j] == old(self).services@[j]);
                assert(self.services_seq()[j] == self.services@[j]);
            }
        }
        Ok(())
    }

    /// How many registered services report themselves running right now.
    pub fn running_services_count(&self) -> (c: usize)
        requires
            self.wf(),
        ensures
            c == count_running(self.services_seq()),
    {
        let n = self.services.len();
        let mut c: usize = 0;
        let mut i: usize = 0;
        proof {
            assert(self.services_seq() == self.services@);
            assert forall|j: int| 0 <= j < self.services@.len() implies (
            #[trigger] self.services@[j]).inv() by {
                assert(self.services_seq()[j].inv());
            }
        }
        while i < n
            invariant
                self.wf(),
                n == self.services@.len(),
                forall|j: int| 0 <= j < n ==> (#[trigger] self.services@[j]).inv(),
                i <= n,
                c <= i,
                c == count_running(self.services@.take(i as int)),
            decreases n - i,
        {
            if self.services[i].is_running() {
                c = c + 1;
            }
            i = i + 1;
            proof {
                assert(self.services@.take(i as int).drop_last() =~= self.services@.take(
                    i as int - 1,
                ));
                assert(self.services@.take(i as int).last() == self.services@[i as int - 1]);
            }
        }
        proof {
            assert(self.services@.take(n as int) =~= self.services@);
        }
        c
    }

    /// Report, per registered service and in registration order: a name
    /// derived from its position, its running flag, and its supported tags
    /// rendered as decimal strings in the service's own order.
    pub fn get_services_info(&self) -> (infos: Vec<ServiceInfo>)
        requires
            self.wf(),
        ensures
            infos@.len() == self.services_seq().len(),
            forall|i: int|
                0 <= i < infos@.len() ==> {
                    &&& (#[trigger] infos@[i]).is_running == self.services_seq()[i].running()
                    &&& infos@[i].name@ == "Service_"@ + decimal_digits(i as nat)
                    &&& infos@[i].supported_types@.len()
                        == self.services_seq()[i].supported_list().len()
                    &&& forall|j: int|
                        0 <= j < infos@[i].supported_types@.len() ==> (
                        #[trigger] infos@[i].supported_types@[j])@ == decimal_digits(
                            self.services_seq()[i].supported_list()[j] as nat,
                        )
                },
    {
        let n = self.services.len();
        let mut infos: Vec<ServiceInfo> = Vec::new();
        let mut i: usize = 0;
        proof {
            assert(self.services_seq() == self.services@);
            assert forall|j: int| 0 <= j < self.services@.len() implies (
            #[trigger] self.services@[j]).inv() by {
                assert(self.services_seq()[j].inv());
            }
        }
        while i < n
            invariant
                self.wf(),
                n == self.services@.len(),
                forall|j: int| 0 <= j < n ==> (#[trigger] self.services@[j]).inv(),
                i <= n,
                infos@.len() == i,
                forall|k: int|
                    0 <= k < i ==> {
                        &&& (#[trigger] infos@[k]).is_running == self.services_seq()[k].running()
                        &&& infos@[k].name@ == "Service_"@ + decimal_digits(k as nat)
                        &&& infos@[k].supported_types@.len()
                            == self.services_seq()[k].supported_list().len()
                        &&& forall|j: int|
                            0 <= j < infos@[k].supported_types@.len() ==> (
                            #[trigger] infos@[k].supported_types@[j])@ == decimal_digits(
                                self.services_seq()[k].supported_list()[j] as nat,
                            )
                    },
            decreases n - i,
        {
            let tags = self.services[i].supports();
            let mut tag_strings: Vec<String> = Vec::new();
            let mut j: usize = 0;
            while j < tags.len()
                invariant
                    j <= tags@.len(),
                    tag_strings@.len() == j,
                    forall|k: int|
                        0 <= k < j ==> (#[trigger] tag_strings@[k])@ == decimal_digits(
                            tags@[k] as nat,
                        ),
                decreases tags@.len() - j,
            {
                tag_strings.push(tag_string(tags[j]));
                j = j + 1;
            }
            let info = ServiceInfo {
                name: service_name(i as u64),
                is_running: self.services[i].is_running(),
                supported_types: tag_strings,
            };
            infos.push(info);
            i = i + 1;
        }
        infos
    }

    /// Enqueue an event on the context carrying `context_id`, leaving
    /// every other context exactly as it was: events bound for one context
    /// are never visible through another.
    pub fn dispatch_event(&mut self, context_id: u64, event: EventItem) -> (r: Result<
        (),
        MediatorError,
    >)
        requires
            old(self).wf(),
        ensures
            final(self).wf(),
            final(self).services_seq() == old(self).services_seq(),
            final(self).context_counter() == old(self).context_counter(),
            final(self).contexts_seq().len() == old(self).contexts_seq().len(),
            context_index_of(old(self).contexts_seq(), context_id) == -1 ==> r == Err::<
                (),
                MediatorError,
            >(MediatorError::NoSuchContext) && *final(self) == *old(self),
            context_index_of(old(self).contexts_seq(), context_id) != -1 ==> {
                let ci = context_index_of(old(self).contexts_seq(), context_id);
                &&& forall|j: int|
                    0 <= j < old(self).contexts_seq().len() && j != ci ==> final(self).contexts_seq()[j] == old(self).contexts_seq()[j]
                &&& final(self).contexts_seq()[ci].id() == old(self).contexts_seq()[ci].id()
                &&& final(self).contexts_seq()[ci].is_closed() == old(self).contexts_seq()[ci].is_closed()
                &&& (old(self).contexts_seq()[ci].is_closed() ==> r == Err::<(), MediatorError>(
                    MediatorError::ChannelClosed,
                ) && final(self).contexts_seq()[ci].events() == old(self).contexts_seq()[ci].events())
                &&& (!old(self).contexts_seq()[ci].is_closed() ==> r == Ok::<(), MediatorError>(())
                    && final(self).contexts_seq()[ci].events() == old(self).contexts_seq()[ci].events().push(event))
            },
    {
        let ci = match find_context(&self.contexts, context_id) {
            None => {
                return Err(MediatorError::NoSuchContext);
            },
            Some(ci) => ci,
        };
        let ghost pre_contexts = self.contexts@;
        let mut ctx = self.contexts.remove(ci);
        let r = ctx.dispatch_event(event);
        let ghost ctx_post = ctx;
        self.contexts.insert(ci, ctx);
        proof {
            assert(pre_contexts == old(self).contexts_seq());
            assert(self.context_counter() == old(self).context_counter());
            assert(self.services_seq() == old(self).services_seq());
            pre_contexts.remove_ensures(ci as int);
            pre_contexts.remove(ci as int).insert_ensures(ci as int, ctx_post);
            assert(self.contexts@ =~= pre_contexts.update(ci as int, ctx_post));
            assert(self.contexts_seq() == pre_contexts.update(ci as int, ctx_post));
            assert forall|a: int| 0 <= a < self.services_seq().len() implies (
            #[trigger] self.services_seq()[a]).inv() by {
                assert(self.services_seq()[a] == old(self).services_seq()[a]);
            }
            assert forall|a: int| 0 <= a < self.contexts_seq().len() implies (
            #[trigger] self.contexts_seq()[a]).id() < self.context_counter() by {
                assert(self.contexts_seq()[a].id() == old(self).contexts_seq()[a].id());
            }
            assert forall|a: int, b: int| 0 <= a < b < self.contexts_seq().len() implies (
            #[trigger] self.contexts_seq()[a]).id() != (#[trigger] self.contexts_seq()[b]).id() by {
                assert(self.contexts_seq()[a].id() == old(self).contexts_seq()[a].id());
                assert(self.contexts_seq()[b].id() == old(self).contexts_seq()[b].id());
            }
        }
        r
    }

    /// Take the oldest event queued on the context carrying `context_id`,
    /// or `Ok(None)` when that context's queue is drained; every other
    /// context is left exactly as it was.
    pub fn receive_event(&mut self, context_id: u64) -> (r: Result<
        Option<EventItem>,
        MediatorError,
    >)
        requires
            old(self).wf(),
        ensures
            final(self).wf(),
            final(self).services_seq() == old(self).services_seq(),
            final(self).context_counter() == old(self).context_counter(),
            final(self).contexts_seq().len() == old(self).contexts_seq().len(),
            context_index_of(old(self).contexts_seq(), context_id) == -1 ==> r == Err::<
                Option<EventItem>,
                MediatorError,
            >(MediatorError::NoSuchContext) && *final(self) == *old(self),
            context_index_of(old(self).contexts_seq(), context_id) != -1 ==> {
                let ci = context_index_of(old(self).contexts_seq(), context_id);
                &&& forall|j: int|
                    0 <= j < old(self).contexts_seq().len() && j != ci ==> final(self).contexts_seq()[j] == old(self).contexts_seq()[j]
                &&& final(self).contexts_seq()[ci].id() == old(self).contexts_seq()[ci].id()
                &&& final(self).contexts_seq()[ci].is_closed() == old(self).contexts_seq()[ci].is_closed()
                &&& (old(self).contexts_seq()[ci].events().len() == 0 ==> r == Ok::<
                    Option<EventItem>,
                    MediatorError,
                >(None) && final(self).contexts_seq()[ci].events() == old(self).contexts_seq()[ci].events())
                &&& (old(self).contexts_seq()[ci].events().len() > 0 ==> r == Ok::<
                    Option<EventItem>,
                    MediatorError,
                >(Some(old(self).contexts_seq()[ci].events()[0])) && final(self).contexts_seq()[ci].events() == old(self).contexts_seq()[ci].events().drop_first())
            },
    {
        let ci = match find_context(&self.contexts, context_id) {
            None => {
                return Err(MediatorError::NoSuchContext);
            },
            Some(ci) => ci,
        };
        let ghost pre_contexts = self.contexts@;
        let mut ctx = self.contexts.remove(ci);
        let evt = ctx.receive_event();
        let ghost ctx_post = ctx;
        self.contexts.insert(ci, ctx);
        proof {
            assert(pre_contexts == old(self).contexts_seq());
            assert(self.context_counter() == old(self).context_counter());
            assert(self.services_seq() == old(self).services_seq());
            pre_contexts.remove_ensures(ci as int);
            pre_contexts.remove(ci as int).insert_ensures(ci as int, ctx_post);
            assert(self.contexts@ =~= pre_contexts.update(ci as int, ctx_post));
            assert(self.contexts_seq() == pre_contexts.update(ci as int, ctx_post));
            assert forall|a: int| 0 <= a < self.services_seq().len() implies (
            #[trigger] self.services_seq()[a]).inv() by {
                assert(self.services_seq()[a] == old(self).services_seq()[a]);
            }
            assert forall|a: int| 0 <= a < self.contexts_seq().len() implies (
            #[trigger] self.contexts_seq()[a]).id() < self.context_counter() by {
                assert(self.contexts_seq()[a].id() == old(self).contexts_seq()[a].id());
            }
            assert forall|a: int, b: int| 0 <= a < b < self.contexts_seq().len() implies (
            #[trigger] self.contexts_seq()[a]).id() != (#[trigger] self.contexts_seq()[b]).id() by {
                assert(self.contexts_seq()[a].id() == old(self).contexts_seq()[a].id());
                assert(self.contexts_seq()[b].id() == old(self).contexts_seq()[b].id());
            }
        }
        Ok(evt)
    }
}

/// Scan the registration order for the earliest service supporting `tag`.
fn find_first_supporting<S: Service>(services: &Vec<S>, tag: u64) -> (r: Option<usize>)
    requires
        forall|i: int| 0 <= i < services@.len() ==> (#[trigger] services@[i]).inv(),
    ensures
        match r {
            Some(i) => i < services@.len() && route_index(services@, tag) == i as int,
            None => route_index(services@, tag) == -1,
        },
{
    let mut i: usize = 0;
    while i < services.len()
        invariant
            i <= services@.len(),
            forall|k: int| 0 <= k < services@.len() ==> (#[trigger] services@[k]).inv(),
            forall|j: int| 0 <= j < i ==> !(#[trigger] services@[j]).supported().contains(tag),
        decreases services@.len() - i,
    {
        let tags = services[i].supports();
        if contains_tag(&tags, tag) {
            proof {
                assert(services@[i as int].supported().contains(tag));
                lemma_route_first_match(services@, tag);
                let c = route_index(services@, tag);
                if c == -1 {
                    assert(false);
                } else if c < i as int {
                    assert(services@[c].supported().contains(tag));
                    assert(false);
                } else if c > i as int {
                    assert(!services@[i as int].supported().contains(tag));
                    assert(false);
                }
            }
            return Some(i);
        }
        i = i + 1;
    }
    proof {
        lemma_route_first_match(services@, tag);
        let c = route_index(services@, tag);
        if c != -1 {
            assert(services@[c].supported().contains(tag));
            assert(false);
        }
    }
    None
}

/// Scan the context list for the first context carrying `id`.
fn find_context(contexts: &Vec<MediatorContext>, id: u64) -> (r: Option<usize>)
    ensures
        match r {
            Some(i) => i < contexts@.len() && context_index_of(contexts@, id) == i as int,
            None => context_index_of(contexts@, id) == -1,
        },
{
    let mut i: usize = 0;
    while i < contexts.len()
        invariant
            i <= contexts@.len(),
            forall|j: int| 0 <= j < i ==> (#[trigger] contexts@[j]).id() != id,
        decreases contexts@.len() - i,
    {
        if contexts[i].context_id() == id {
            proof {
                lemma_context_index_of(contexts@, id);
                let c = context_index_of(contexts@, id);
                if c == -1 {
                    assert(false);
                } else if c < i as int {
                    assert(contexts@[c].id() == id);
                    assert(false);
                } else if c > i as int {
                    assert(contexts@[i as int].id() != id);
                    assert(false);
                }
            }
            return Some(i);
        }
        i = i + 1;
    }
    proof {
        lemma_context_index_of(contexts@, id);
        let c = context_index_of(contexts@, id);
        if c != -1 {
            assert(contexts@[c].id() == id);
            assert(false);
        }
    }
    None
}

} // verus!
