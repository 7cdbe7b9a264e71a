use vstd::prelude::*;
use crate::common::{EventItem, MediatorError, Message, SuccessEvent};
use crate::common::Command;
use crate::mediator::MediatorContext;

verus! {

/// Type tag of `StartServerCommand`.
pub const START_SERVER_TAG: u64 = 1;

/// Type tag of `StopServerCommand`.
pub const STOP_SERVER_TAG: u64 = 2;

/// A command asking a service to start serving on the given address.
#[derive(Clone, Debug)]
pub struct StartServerCommand {
    pub message: Message,
    pub host: String,
    pub port: u16,
}

impl Command for StartServerCommand {
    fn message(&self) -> (m: &Message)
        ensures
            *m == self.message,
    {
        &self.message
    }
}

/// A command asking a service to stop serving.
#[derive(Clone, Debug)]
pub struct StopServerCommand {
    pub message: Message,
}

impl Command for StopServerCommand {
    fn message(&self) -> (m: &Message)
        ensures
            *m == self.message,
    {
        &self.message
    }
}

/// The type-erased payload at the dispatch boundary: a closed tagged union
/// over the concrete message kinds. Routing reads only the tag; a service
/// re-derives the concrete kind by matching on the variant.
#[derive(Clone, Debug)]
pub enum AnyMessage {
    StartServer(StartServerCommand),
    StopServer(StopServerCommand),
}

impl AnyMessage {
    /// The runtime routing key. Each variant's tag is distinct and fixed.
    pub open spec fn tag(&self) -> u64 {
        match self {
            AnyMessage::StartServer(_) => START_SERVER_TAG,
            AnyMessage::StopServer(_) => STOP_SERVER_TAG,
        }
    }

    pub fn type_tag(&self) -> (t: u64)
        ensures
            t == self.tag(),
    {
        match self {
            AnyMessage::StartServer(_) => START_SERVER_TAG,
            AnyMessage::StopServer(_) => STOP_SERVER_TAG,
        }
    }
}

/// A polymorphic unit of work: it declares a fixed set of supported type
/// tags, has a running/stopped state, and handles messages routed to it.
///
/// `supported()` is the declared tag set and `supported_list()` the fixed
/// order in which the service enumerates it; both are constant over the
/// whole lifecycle. `start` and `stop` are idempotent; a failing `start`
/// or `stop` leaves the running state as it was.
pub trait Service: Sized {
    /// The declared set of supported type tags; fixed at construction.
    spec fn supported(&self) -> Set<u64>;

    /// The fixed order in which the service enumerates its supported tags.
    spec fn supported_list(&self) -> Seq<u64>;

    /// Current lifecycle state.
    spec fn running(&self) -> bool;

    /// Internal well-formedness of the service.
    spec fn inv(&self) -> bool;

    /// What one `handle(message, context)` call leaves behind: each
    /// implementor relates its own and the context's states before and
    /// after the call to the returned result. `handle` ensures it, and the
    /// mediator's routing re-states it of the selected service, so a
    /// caller of the mediator knows the routed service's `handle` was
    /// really invoked and its result handed back unchanged.
    spec fn handle_post(
        pre: Self,
        post: Self,
        pre_ctx: MediatorContext,
        post_ctx: MediatorContext,
        message: AnyMessage,
        r: Result<(), MediatorError>,
    ) -> bool;

    /// What one `start` call leaves behind, relating the states before and
    /// after it to the returned result. `start` ensures it, and the
    /// mediator's startup sweep re-states it of every service it reached —
    /// with `Ok` for the services it started and with the returned error
    /// for the one whose `start` failed — so a caller knows each `start`
    /// was really invoked and the sweep's error is the failing call's own.
    spec fn start_post(pre: Self, post: Self, r: Result<(), MediatorError>) -> bool;

    /// What one `stop` call leaves behind; the counterpart of `start_post`
    /// for the shutdown sweep.
    spec fn stop_post(pre: Self, post: Self, r: Result<(), MediatorError>) -> bool;

    fn supports(&self) -> (tags: Vec<u64>)
        requires
            self.inv(),
        ensures
            tags@ == self.supported_list(),
            tags@.to_set() == self.supported(),
    ;

    fn is_running(&self) -> (r: bool)
        requires
            self.inv(),
        ensures
            r == self.running(),
    ;

    fn start(&mut self) -> (r: Result<(), MediatorError>)
        requires
            old(self).inv(),
        ensures
            final(self).inv(),
            final(self).supported() == old(self).supported(),
            final(self).supported_list() == old(self).supported_list(),
            r is Ok ==> final(self).running(),
            r is Err ==> final(self).running() == old(self).running(),
            old(self).running() ==> r is Ok && *final(self) == *old(self),
            Self::start_post(*old(self), *final(self), r),
    ;

    fn stop(&mut self) -> (r: Result<(), MediatorError>)
        requires
            old(self).inv(),
        ensures
            final(self).inv(),
            final(self).supported() == old(self).supported(),
            final(self).supported_list() == old(self).supported_list(),
            r is Ok ==> !final(self).running(),
            r is Err ==> final(self).running() == old(self).running(),
            !old(self).running() ==> r is Ok && *final(self) == *old(self),
            Self::stop_post(*old(self), *final(self), r),
    ;

    fn handle(&mut self, message: &AnyMessage, context: &mut MediatorContext) -> (r: Result<
        (),
        MediatorError,
    >)
        requires
            old(self).inv(),
        ensures
            final(self).inv(),
            final(self).supported() == old(self).supported(),
            final(self).supported_list() == old(self).supported_list(),
            final(context).id() == old(context).id(),
            final(context).is_closed() == old(context).is_closed(),
            old(context).events().is_prefix_of(final(context).events()),
            !old(self).supported().contains(message.tag()) ==> r
                == Err::<(), MediatorError>(MediatorError::UnrecognizedPayload) && *final(self)
                == *old(self) && final(context).events() == old(context).events(),
            Self::handle_post(*old(self), *final(self), *old(context), *final(context), *message, r),
    ;
}

/// A service holding only the shared state every service carries: the
/// running flag, the declared tags in insertion order, and a count of the
/// messages it handled. It acquires no outside resource; handling a
/// supported message pushes one `SuccessEvent` onto the context.
pub struct BaseService {
    pub is_running: bool,
    pub supported_types: Vec<u64>,
    pub handled_count: u64,
}

impl BaseService {
    pub fn new() -> (s: BaseService)
        ensures
            s.inv(),
            !s.running(),
            s.supported() == Set::<u64>::empty(),
            s.supported_list() == Seq::<u64>::empty(),
            s.handled_count == 0,
    {
        BaseService { is_running: false, supported_types: Vec::new(), handled_count: 0 }
    }

    /// Declare support for one more tag; adding a tag twice changes nothing.
    pub fn add_support(&mut self, tag: u64)
        requires
            old(self).inv(),
        ensures
            final(self).inv(),
            final(self).supported() == old(self).supported().insert(tag),
            old(self).supported().contains(tag) ==> final(self).supported_list() == old(self).supported_list(),
            !old(self).supported().contains(tag) ==> final(self).supported_list() == old(self).supported_list().push(tag),
            final(self).is_running == old(self).is_running,
            final(self).handled_count == old(self).handled_count,
    {
        let mut i: usize = 0;
        while i < self.supported_types.len()
            invariant
                0 <= i <= self.supported_types.len(),
                forall|j: int| 0 <= j < i ==> self.supported_types@[j] != tag,
                *self == *old(self),
            decreases self.supported_types.len() - i,
        {
            if self.supported_types[i] == tag {
                proof {
                    assert(old(self).supported().contains(tag));
                    assert(old(self).supported().insert(tag) =~= old(self).supported());
                }
                return ;
            }
            i = i + 1;
        }
        proof {
            assert(!old(self).supported_list().contains(tag));
            assert(!old(self).supported().contains(tag));
        }
        self.supported_types.push(tag);
        proof {
            broadcast use vstd::seq_lib::lemma_seq_contains_after_push;

            assert(self.supported_types@ == old(self).supported_types@.push(tag));
            assert(self.supported_types@.to_set() =~= old(self).supported_types@.to_set().insert(
                tag,
            ));
        }
    }
}

impl Service for BaseService {
    open spec fn supported(&self) -> Set<u64> {
        self.supported_types@.to_set()
    }

    open spec fn supported_list(&self) -> Seq<u64> {
        self.supported_types@
    }

    open spec fn running(&self) -> bool {
        self.is_running
    }

    open spec fn inv(&self) -> bool {
        true
    }

    /// An unsupported message is refused with nothing changed; a supported
    /// one bumps the handled count (saturating) and pushes one
    /// `SuccessEvent`, succeeding exactly when the context is open.
    open spec fn handle_post(
        pre: Self,
        post: Self,
        pre_ctx: MediatorContext,
        post_ctx: MediatorContext,
        message: AnyMessage,
        r: Result<(), MediatorError>,
    ) -> bool {
        if !pre.supported().contains(message.tag()) {
            r == Err::<(), MediatorError>(MediatorError::UnrecognizedPayload) && post == pre
                && post_ctx == pre_ctx
        } else {
            &&& post.is_running == pre.is_running
            &&& post.supported_types == pre.supported_types
            &&& post.handled_count == (if pre.handled_count < u64::MAX {
                (pre.handled_count + 1) as u64
            } else {
                pre.handled_count
            })
            &&& post_ctx.id() == pre_ctx.id()
            &&& post_ctx.is_closed() == pre_ctx.is_closed()
            &&& if pre_ctx.is_closed() {
                r == Err::<(), MediatorError>(MediatorError::ChannelClosed) && post_ctx.events()
                    == pre_ctx.events()
            } else {
                &&& r == Ok::<(), MediatorError>(())
                &&& post_ctx.events().len() == pre_ctx.events().len() + 1
                &&& post_ctx.events().last() is Success
                &&& post_ctx.events().take(pre_ctx.events().len() as int) == pre_ctx.events()
            }
        }
    }

    /// `start` always succeeds and leaves the service running, touching
    /// nothing else; it acquires no resource.
    open spec fn start_post(pre: Self, post: Self, r: Result<(), MediatorError>) -> bool {
        &&& r == Ok::<(), MediatorError>(())
        &&& post.is_running
        &&& post.supported_types == pre.supported_types
        &&& post.handled_count == pre.handled_count
    }

    /// `stop` always succeeds and leaves the service stopped, touching
    /// nothing else.
    open spec fn stop_post(pre: Self, post: Self, r: Result<(), MediatorError>) -> bool {
        &&& r == Ok::<(), MediatorError>(())
        &&& !post.is_running
        &&& post.supported_types == pre.supported_types
        &&& post.handled_count == pre.handled_count
    }

    fn supports(&self) -> (tags: Vec<u64>) {
        let mut tags: Vec<u64> = Vec::new();
        let mut i: usize = 0;
        while i < self.supported_types.len()
            invariant
                0 <= i <= self.supported_types.len(),
                tags@ == self.supported_types@.subrange(0, i as int),
            decreases self.supported_types.len() - i,
        {
            tags.push(self.supported_types[i]);
            i = i + 1;
        }
        proof {
            assert(tags@ =~= self.supported_types@);
        }
        tags
    }

    fn is_running(&self) -> (r: bool) {
        self.is_running
    }

    fn start(&mut self) -> (r: Result<(), MediatorError>) {
        if !self.is_running {
            self.is_running = true;
        }
        Ok(())
    }

    fn stop(&mut self) -> (r: Result<(), MediatorError>) {
        if self.is_running {
            self.is_running = false;
        }
        Ok(())
    }

    fn handle(&mut self, message: &AnyMessage, context: &mut MediatorContext) -> (r: Result<
        (),
        MediatorError,
    >) {
        let tag = message.type_tag();
        if !contains_tag(&self.supported_types, tag) {
            return Err(MediatorError::UnrecognizedPayload);
        }
        if self.handled_count < u64::MAX {
            self.handled_count = self.handled_count + 1;
        }
        let r = context.dispatch_event(EventItem::Success(SuccessEvent::new()));
        proof {
            assert(old(context).events().is_prefix_of(context.events()));
            if !old(context).is_closed() {
                assert(context.events().take(old(context).events().len() as int) =~= old(
                    context,
                ).events());
            }
        }
        match r {
            Ok(()) => Ok(()),
            Err(e) => Err(e),
        }
    }
}

/// Whether `tags` holds `tag`.
pub fn contains_tag(tags: &Vec<u64>, tag: u64) -> (r: bool)
    ensures
        r == tags@.contains(tag),
{
    let mut i: usize = 0;
    while i < tags.len()
        invariant
            i <= tags@.len(),
            forall|j: int| 0 <= j < i ==> tags@[j] != tag,
        decreases tags@.len() - i,
    {
        if tags[i] == tag {
            proof {
                assert(tags@.contains(tag)) by {
                    assert(tags@[i as int] == tag);
                }
            }
            return true;
        }
        i = i + 1;
    }
    false
}

/// One decimal digit as its character.
pub open spec fn digit_char(d: nat) -> char {
    if d == 0 {
        '0'
    } else if d == 1 {
        '1'
    } else if d == 2 {
        '2'
    } else if d == 3 {
        '3'
    } else if d == 4 {
        '4'
    } else if d == 5 {
        '5'
    } else if d == 6 {
        '6'
    } else if d == 7 {
        '7'
    } else if d == 8 {
        '8'
    } else {
        '9'
    }
}

/// The decimal rendering of a number, most significant digit first.
pub open spec fn decimal_digits(n: nat) -> Seq<char>
    decreases n,
{
    if n < 10 {
        seq![digit_char(n)]
    } else {
        decimal_digits(n / 10).push(digit_char(n % 10))
    }
}

/// Relies on the `format!` macro of std: an unsigned number renders as its
/// decimal digits.
#[verifier::external_body]
pub(crate) fn tag_string(tag: u64) -> (s: String)
    ensures
        s@ == decimal_digits(tag as nat),
{
    format!("{}", tag)
}

/// Relies on the `format!` macro of std: the literal prefix followed by
/// the index in decimal.
#[verifier::external_body]
pub(crate) fn service_name(index: u64) -> (s: String)
    ensures
        s@ == "Service_"@ + decimal_digits(index as nat),
{
    format!("Service_{}", index)
}

/// A service owning a resource that may refuse to be acquired or released,
/// as a listening socket may: its `start` and `stop` can be made to fail,
/// which exercises the fail-fast lifecycle sweeps. Whether they fail is
/// fixed at construction; a failing call leaves the service as it was.
pub struct FlakyService {
    pub base: BaseService,
    pub fail_start: bool,
    pub fail_stop: bool,
}

impl FlakyService {
    pub fn new(fail_start: bool, fail_stop: bool) -> (s: FlakyService)
        ensures
            s.inv(),
            !s.running(),
            s.supported() == Set::<u64>::empty(),
            s.supported_list() == Seq::<u64>::empty(),
            s.fail_start == fail_start,
            s.fail_stop == fail_stop,
    {
        FlakyService { base: BaseService::new(), fail_start, fail_stop }
    }

    /// Declare support for one more tag, as `BaseService::add_support`.
    pub fn add_support(&mut self, tag: u64)
        requires
            old(self).inv(),
        ensures
            final(self).inv(),
            final(self).supported() == old(self).supported().insert(tag),
            old(self).supported().contains(tag) ==> final(self).supported_list() == old(
                self,
            ).supported_list(),
            !old(self).supported().contains(tag) ==> final(self).supported_list() == old(
                self,
            ).supported_list().push(tag),
            final(self).running() == old(self).running(),
            final(self).base.handled_count == old(self).base.handled_count,
            final(self).fail_start == old(self).fail_start,
            final(self).fail_stop == old(self).fail_stop,
    {
        self.base.add_support(tag);
    }
}

impl Service for FlakyService {
    open spec fn supported(&self) -> Set<u64> {
        self.base.supported_types@.to_set()
    }

    open spec fn supported_list(&self) -> Seq<u64> {
        self.base.supported_types@
    }

    open spec fn running(&self) -> bool {
        self.base.is_running
    }

    open spec fn inv(&self) -> bool {
        true
    }

    /// The context is never touched; an unsupported message is refused
    /// with nothing changed; a supported start command behaves as `start`
    /// and a supported stop command as `stop`, the call's result handed
    /// back as the answer.
    open spec fn handle_post(
        pre: Self,
        post: Self,
        pre_ctx: MediatorContext,
        post_ctx: MediatorContext,
        message: AnyMessage,
        r: Result<(), MediatorError>,
    ) -> bool {
        &&& post_ctx == pre_ctx
        &&& if !pre.supported().contains(message.tag()) {
            r == Err::<(), MediatorError>(MediatorError::UnrecognizedPayload) && post == pre
        } else if message.tag() == START_SERVER_TAG {
            Self::start_post(pre, post, r)
        } else {
            Self::stop_post(pre, post, r)
        }
    }

    /// `start` is a no-op on a running service; on a stopped one it fails
    /// with a lifecycle error and changes nothing when acquisition fails,
    /// and runs afterwards when it does not.
    open spec fn start_post(pre: Self, post: Self, r: Result<(), MediatorError>) -> bool {
        &&& post.base.supported_types == pre.base.supported_types
        &&& post.base.handled_count == pre.base.handled_count
        &&& post.fail_start == pre.fail_start
        &&& post.fail_stop == pre.fail_stop
        &&& if pre.running() {
            r == Ok::<(), MediatorError>(()) && post == pre
        } else if pre.fail_start {
            (r matches Err(MediatorError::Lifecycle(_))) && post == pre
        } else {
            r == Ok::<(), MediatorError>(()) && post.running()
        }
    }

    /// `stop` is a no-op on a stopped service; on a running one it fails
    /// with a lifecycle error and changes nothing when release fails, and
    /// is stopped afterwards when it does not.
    open spec fn stop_post(pre: Self, post: Self, r: Result<(), MediatorError>) -> bool {
        &&& post.base.supported_types == pre.base.supported_types
        &&& post.base.handled_count == pre.base.handled_count
        &&& post.fail_start == pre.fail_start
        &&& post.fail_stop == pre.fail_stop
        &&& if !pre.running() {
            r == Ok::<(), MediatorError>(()) && post == pre
        } else if pre.fail_stop {
            (r matches Err(MediatorError::Lifecycle(_))) && post == pre
        } else {
            r == Ok::<(), MediatorError>(()) && !post.running()
        }
    }

    fn supports(&self) -> (tags: Vec<u64>) {
        self.base.supports()
    }

    fn is_running(&self) -> (r: bool) {
        self.base.is_running
    }

    fn start(&mut self) -> (r: Result<(), MediatorError>) {
        if self.base.is_running {
            return Ok(());
        }
        if self.fail_start {
            return Err(MediatorError::Lifecycle("resource could not be acquired".to_owned()));
        }
        self.base.is_running = true;
        Ok(())
    }

    fn stop(&mut self) -> (r: Result<(), MediatorError>) {
        if !self.base.is_running {
            return Ok(());
        }
        if self.fail_stop {
            return Err(MediatorError::Lifecycle("resource could not be released".to_owned()));
        }
        self.base.is_running = false;
        Ok(())
    }

    fn handle(&mut self, message: &AnyMessage, context: &mut MediatorContext) -> (r: Result<
        (),
        MediatorError,
    >) {
        let tag = message.type_tag();
        if !contains_tag(&self.base.supported_types, tag) {
            return Err(MediatorError::UnrecognizedPayload);
        }
        proof {
            assert(context.events().subrange(0, context.events().len() as int) =~= context.events());
        }
        match message {
            AnyMessage::StartServer(_) => self.start(),
            AnyMessage::StopServer(_) => self.stop(),
        }
    }
}

/// What the mediator reports of one registered service.
pub struct ServiceInfo {
    pub name: String,
    pub is_running: bool,
    pub supported_types: Vec<String>,
}

/// The full services-status document: every service's info together with
/// the totals the caller renders.
pub struct ServicesResponse {
    pub services: Vec<ServiceInfo>,
    pub total_count: usize,
    pub running_count: usize,
}

impl ServicesResponse {
    /// Assemble the status document from the per-service infos and the
    /// running count; the total is the number of services reported.
    pub fn new(services: Vec<ServiceInfo>, running_count: usize) -> (r: ServicesResponse)
        ensures
            r.services == services,
            r.total_count == services@.len(),
            r.running_count == running_count,
    {
        let total_count = services.len();
        ServicesResponse { services, total_count, running_count }
    }
}

} // verus!
