//! The history service: the owner of a history, which takes one message
//! at a time and says what to do about it. The loop that receives the
//! messages and sends the answers belongs to the caller; every decision
//! is made here.

use crate::automaton::AutomatonCell;
use crate::diff::algebra::{chain_diffs, stack_all_spec, DiffModel};
use crate::diff::Diff;
use crate::error::EngineError;
use crate::grid::{same_shape, Grid, GridModel};
use crate::universe_history::{HistoryModel, UniverseHistory};
use vstd::prelude::*;

verus! {

/// What a client asks of the history service.
pub enum HistoryRequest<C> {
    /// Take in the next generation. No answer is sent.
    Push(Grid<C>),
    /// The diff from the first generation to the second; the flag asks
    /// the service to wait until the second has been pushed.
    GetDiff(usize, usize, bool),
    /// The generation with this number; the flag asks the service to
    /// wait until it has been pushed.
    GetGen(usize, bool),
}

/// What the history service answers.
pub enum HistoryResponse<C> {
    /// The diff that was asked for, or `None` where its target has not
    /// been pushed yet.
    GetDiff(Option<Diff<C>>),
    /// The generation that was asked for, or `None` where it has not
    /// been pushed yet.
    GetGen(Option<Grid<C>>),
}

/// What the channel hands to the service.
pub enum Mail<C> {
    /// A request, and whether a handle for the answer came with it.
    Message(HistoryRequest<C>, bool),
    /// Every sender has let go of the channel.
    DeadChannel,
}

/// What the loop around the service does after a message.
pub enum ServiceAction<C> {
    /// Nothing is sent: wait for the next message.
    Continue,
    /// Send this answer to the client whose query it settles.
    Respond(HistoryResponse<C>),
    /// Tell the client that its query failed. The service goes on.
    Reject(EngineError),
    /// Leave the loop: the channel is dead, or the protocol was broken.
    Terminate(EngineError),
}

/// The blocking query that the service is waiting to answer, if any.
#[derive(Clone, Copy, Debug, PartialEq, Eq, Structural)]
pub enum Pending {
    /// No query is waiting.
    Idle,
    /// A client waits for the generation with this number.
    Gen(usize),
    /// A client waits for the diff between these two generations.
    Diff(usize, usize),
}

/// A request as a mathematical value.
pub enum RequestModel<C> {
    Push(GridModel<C>),
    GetDiff(usize, usize, bool),
    GetGen(usize, bool),
}

/// A response as a mathematical value.
pub enum ResponseModel<C> {
    GetDiff(Option<DiffModel<C>>),
    GetGen(Option<GridModel<C>>),
}

/// A piece of mail as a mathematical value.
pub enum MailModel<C> {
    Message(RequestModel<C>, bool),
    DeadChannel,
}

/// An action as a mathematical value.
pub enum ActionModel<C> {
    Continue,
    Respond(ResponseModel<C>),
    Reject(EngineError),
    Terminate(EngineError),
}

/// The service as a mathematical value: its history, the query that it
/// is waiting to answer, and whether it has left its loop.
pub struct ServiceModel<C> {
    pub history: HistoryModel<C>,
    pub pending: Pending,
    pub stopped: bool,
}

impl<C: AutomatonCell> View for HistoryRequest<C> {
    type V = RequestModel<C>;

    open spec fn view(&self) -> RequestModel<C> {
        match self {
            HistoryRequest::Push(grid) => RequestModel::Push(grid.model()),
            HistoryRequest::GetDiff(ref_gen, target_gen, blocking) => RequestModel::GetDiff(
                *ref_gen,
                *target_gen,
                *blocking,
            ),
            HistoryRequest::GetGen(gen, blocking) => RequestModel::GetGen(*gen, *blocking),
        }
    }
}

impl<C: AutomatonCell> HistoryRequest<C> {
    /// A grid that the request carries is complete.
    pub open spec fn wf(&self) -> bool {
        match self {
            HistoryRequest::Push(grid) => grid.wf(),
            _ => true,
        }
    }
}

impl<C: AutomatonCell> View for HistoryResponse<C> {
    type V = ResponseModel<C>;

    open spec fn view(&self) -> ResponseModel<C> {
        match self {
            HistoryResponse::GetDiff(Some(diff)) => ResponseModel::GetDiff(Some(diff@)),
            HistoryResponse::GetDiff(None) => ResponseModel::GetDiff(None),
            HistoryResponse::GetGen(Some(grid)) => ResponseModel::GetGen(Some(grid.model())),
            HistoryResponse::GetGen(None) => ResponseModel::GetGen(None),
        }
    }
}

impl<C: AutomatonCell> HistoryResponse<C> {
    /// A grid or a diff that the response carries is complete.
    pub open spec fn wf(&self) -> bool {
        match self {
            HistoryResponse::GetDiff(Some(diff)) => diff.wf(),
            HistoryResponse::GetGen(Some(grid)) => grid.wf(),
            _ => true,
        }
    }
}

impl<C: AutomatonCell> View for Mail<C> {
    type V = MailModel<C>;

    open spec fn view(&self) -> MailModel<C> {
        match self {
            Mail::Message(request, expects_reply) => MailModel::Message(request@, *expects_reply),
            Mail::DeadChannel => MailModel::DeadChannel,
        }
    }
}

impl<C: AutomatonCell> Mail<C> {
    /// A grid that the mail carries is complete.
    pub open spec fn wf(&self) -> bool {
        match self {
            Mail::Message(request, _) => request.wf(),
            Mail::DeadChannel => true,
        }
    }
}

impl<C: AutomatonCell> View for ServiceAction<C> {
    type V = ActionModel<C>;

    open spec fn view(&self) -> ActionModel<C> {
        match self {
            ServiceAction::Continue => ActionModel::Continue,
            ServiceAction::Respond(response) => ActionModel::Respond(response@),
            ServiceAction::Reject(error) => ActionModel::Reject(*error),
            ServiceAction::Terminate(error) => ActionModel::Terminate(*error),
        }
    }
}

impl<C: AutomatonCell> ServiceAction<C> {
    /// A grid or a diff that the action carries is complete.
    pub open spec fn wf(&self) -> bool {
        match self {
            ServiceAction::Respond(response) => response.wf(),
            _ => true,
        }
    }
}

/// The service with its loop left.
pub open spec fn halted<C>(state: ServiceModel<C>) -> ServiceModel<C> {
    ServiceModel { stopped: true, ..state }
}

/// What the service does about a request while no query is waiting: a
/// push is taken in; a query is answered where it can be, kept where it
/// cannot and is willing to wait, and answered with `None` otherwise.
pub open spec fn serve_idle<C>(state: ServiceModel<C>, request: RequestModel<C>, expects_reply: bool) -> (
    ServiceModel<C>,
    ActionModel<C>,
) {
    match request {
        RequestModel::Push(grid) => if expects_reply {
            (halted(state), ActionModel::Terminate(EngineError::ProtocolViolation))
        } else {
            (ServiceModel { history: state.history.push(grid), ..state }, ActionModel::Continue)
        },
        RequestModel::GetGen(gen, blocking) => if !expects_reply {
            (halted(state), ActionModel::Terminate(EngineError::ProtocolViolation))
        } else {
            match state.history.get_gen(gen as int) {
                Some(grid) => (state, ActionModel::Respond(ResponseModel::GetGen(Some(grid)))),
                None => if blocking {
                    (ServiceModel { pending: Pending::Gen(gen), ..state }, ActionModel::Continue)
                } else {
                    (state, ActionModel::Respond(ResponseModel::GetGen(None)))
                },
            }
        },
        RequestModel::GetDiff(ref_gen, target_gen, blocking) => if !expects_reply {
            (halted(state), ActionModel::Terminate(EngineError::ProtocolViolation))
        } else {
            match state.history.get_diff(ref_gen as int, target_gen as int) {
                Err(error) => (state, ActionModel::Reject(error)),
                Ok(Some(diff)) => (state, ActionModel::Respond(ResponseModel::GetDiff(Some(diff)))),
                Ok(None) => if blocking {
                    (ServiceModel { pending: Pending::Diff(ref_gen, target_gen), ..state }, ActionModel::Continue)
                } else {
                    (state, ActionModel::Respond(ResponseModel::GetDiff(None)))
                },
            }
        },
    }
}

/// What the service does about a request while a query is waiting: it
/// takes pushes only, and answers the query after the first push that
/// lets it.
pub open spec fn serve_waiting<C>(state: ServiceModel<C>, request: RequestModel<C>) -> (
    ServiceModel<C>,
    ActionModel<C>,
) {
    match request {
        RequestModel::Push(grid) => {
            let history = state.history.push(grid);
            let waiting = ServiceModel { history, ..state };
            let idle = ServiceModel { history, pending: Pending::Idle, ..state };
            match state.pending {
                Pending::Gen(gen) => match history.get_gen(gen as int) {
                    Some(grid) => (idle, ActionModel::Respond(ResponseModel::GetGen(Some(grid)))),
                    None => (waiting, ActionModel::Continue),
                },
                Pending::Diff(ref_gen, target_gen) => match history.get_diff(ref_gen as int, target_gen as int) {
                    Ok(Some(diff)) => (idle, ActionModel::Respond(ResponseModel::GetDiff(Some(diff)))),
                    _ => (waiting, ActionModel::Continue),
                },
                Pending::Idle => (waiting, ActionModel::Continue),
            }
        },
        _ => (halted(state), ActionModel::Terminate(EngineError::ProtocolViolation)),
    }
}

/// What the service does about a piece of mail: the state that it moves
/// to, and the action that it asks of the loop.
pub open spec fn serve<C>(state: ServiceModel<C>, mail: MailModel<C>) -> (ServiceModel<C>, ActionModel<C>) {
    match mail {
        MailModel::DeadChannel => (halted(state), ActionModel::Terminate(EngineError::DeadChannel)),
        MailModel::Message(request, expects_reply) => if state.pending == Pending::Idle {
            serve_idle(state, request, expects_reply)
        } else {
            serve_waiting(state, request)
        },
    }
}

/// The mail can be handed to a service in this state: a grid that it
/// pushes has the shape of the generations before it.
pub open spec fn acceptable<C>(state: ServiceModel<C>, mail: MailModel<C>) -> bool {
    mail matches MailModel::Message(RequestModel::Push(grid), _) ==> grid.wf() && same_shape(
        grid,
        state.history.generations[0],
    )
}

/// A waiting query is one that cannot be answered yet.
pub open spec fn pending_open<C>(state: ServiceModel<C>) -> bool {
    match state.pending {
        Pending::Idle => true,
        Pending::Gen(gen) => gen > state.history.latest(),
        Pending::Diff(ref_gen, target_gen) => ref_gen <= target_gen && target_gen > state.history.latest(),
    }
}

/// The mail that pushes `grid`.
pub open spec fn push_mail<C>(grid: GridModel<C>) -> MailModel<C> {
    MailModel::Message(RequestModel::Push(grid), false)
}

/// The state of the service after the pushes of `grids`, one after the
/// other.
pub open spec fn after_pushes<C>(state: ServiceModel<C>, grids: Seq<GridModel<C>>) -> ServiceModel<C>
    decreases grids.len(),
{
    if grids.len() == 0 {
        state
    } else {
        serve(after_pushes(state, grids.drop_last()), push_mail(grids.last())).0
    }
}

/// While fewer generations have been pushed than a waiting query needs,
/// the service takes them in and keeps the query.
pub proof fn lemma_still_waiting<C>(state: ServiceModel<C>, grids: Seq<GridModel<C>>)
    requires
        state.pending != Pending::Idle,
        pending_open(state),
        match state.pending {
            Pending::Gen(gen) => state.history.latest() + grids.len() < gen,
            Pending::Diff(_, target_gen) => state.history.latest() + grids.len() < target_gen,
            Pending::Idle => false,
        },
    ensures
        after_pushes(state, grids) == (ServiceModel {
            history: HistoryModel { generations: state.history.generations + grids, ..state.history },
            ..state
        }),
        forall|k: int|
            0 <= k < grids.len() ==> serve(after_pushes(state, #[trigger] grids.take(k)), push_mail(grids[k])).1
                == ActionModel::<C>::Continue,
    decreases grids.len(),
{
    if grids.len() > 0 {
        let earlier = grids.drop_last();
        lemma_still_waiting(state, earlier);
        assert((state.history.generations + earlier).push(grids.last()) =~= state.history.generations + grids);
        assert forall|k: int| 0 <= k < grids.len() implies serve(
            after_pushes(state, #[trigger] grids.take(k)),
            push_mail(grids[k]),
        ).1 == ActionModel::<C>::Continue by {
            if k < grids.len() - 1 {
                assert(earlier.take(k) =~= grids.take(k));
            }
        }
    }
}

/// A waiting query for a generation is answered by the push of that
/// generation, with the grid that was pushed, and by no push before it.
pub proof fn lemma_blocking_gen_completes<C>(state: ServiceModel<C>, gen: usize, grids: Seq<GridModel<C>>)
    requires
        state.pending == Pending::Gen(gen),
        gen > state.history.latest(),
        grids.len() == gen - state.history.latest(),
    ensures
        forall|k: int|
            0 <= k < grids.len() - 1 ==> serve(after_pushes(state, #[trigger] grids.take(k)), push_mail(grids[k])).1
                == ActionModel::<C>::Continue,
        serve(after_pushes(state, grids.drop_last()), push_mail(grids.last())).1 == ActionModel::Respond(
            ResponseModel::GetGen(Some(grids.last())),
        ),
        after_pushes(state, grids).pending == Pending::Idle,
{
    let earlier = grids.drop_last();
    lemma_still_waiting(state, earlier);
    assert forall|k: int| 0 <= k < grids.len() - 1 implies serve(
        after_pushes(state, #[trigger] grids.take(k)),
        push_mail(grids[k]),
    ).1 == ActionModel::<C>::Continue by {
        assert(earlier.take(k) =~= grids.take(k));
    }
}

/// A waiting query for a diff is answered by the push of its target
/// generation, with the net change from its reference generation to the
/// grid that was pushed, and by no push before it.
pub proof fn lemma_blocking_diff_completes<C>(
    state: ServiceModel<C>,
    ref_gen: usize,
    target_gen: usize,
    grids: Seq<GridModel<C>>,
)
    requires
        state.pending == Pending::Diff(ref_gen, target_gen),
        ref_gen <= target_gen,
        target_gen > state.history.latest(),
        grids.len() == target_gen - state.history.latest(),
    ensures
        forall|k: int|
            0 <= k < grids.len() - 1 ==> serve(after_pushes(state, #[trigger] grids.take(k)), push_mail(grids[k])).1
                == ActionModel::<C>::Continue,
        serve(after_pushes(state, grids.drop_last()), push_mail(grids.last())).1 == ActionModel::Respond(
            ResponseModel::GetDiff(
                Some(
                    stack_all_spec(
                        chain_diffs(state.history.generations + grids).subrange(ref_gen as int, target_gen as int),
                    ),
                ),
            ),
        ),
        after_pushes(state, grids).pending == Pending::Idle,
{
    let earlier = grids.drop_last();
    lemma_still_waiting(state, earlier);
    assert((state.history.generations + earlier).push(grids.last()) =~= state.history.generations + grids);
    assert forall|k: int| 0 <= k < grids.len() - 1 implies serve(
        after_pushes(state, #[trigger] grids.take(k)),
        push_mail(grids[k]),
    ).1 == ActionModel::<C>::Continue by {
        assert(earlier.take(k) =~= grids.take(k));
    }
}

/// The owner of a history. It is handed one piece of mail at a time and
/// answers with the action to take.
pub struct HistoryService<C> {
    history: UniverseHistory<C>,
    pending: Pending,
    stopped: bool,
}

impl<C> View for HistoryService<C> {
    type V = ServiceModel<C>;

    closed spec fn view(&self) -> ServiceModel<C> {
        ServiceModel { history: self.history@, pending: self.pending, stopped: self.stopped }
    }
}

impl<C: AutomatonCell> HistoryService<C> {
    /// The history is sound.
    pub closed spec fn inv(&self) -> bool {
        self.history.wf()
    }

    /// The service is sound: so is its history, and a waiting query is
    /// one that cannot be answered yet.
    pub open spec fn wf(&self) -> bool {
        self.inv() && pending_open(self@)
    }

    /// A service that owns `history`, with no query waiting.
    pub fn new(history: UniverseHistory<C>) -> (service: HistoryService<C>)
        requires
            history.wf(),
        ensures
            service.wf(),
            service@ == (ServiceModel { history: history@, pending: Pending::Idle, stopped: false }),
    {
        HistoryService { history, pending: Pending::Idle, stopped: false }
    }

    /// The history that the service owns.
    pub fn history(&self) -> (history: &UniverseHistory<C>)
        ensures
            history@ == self@.history,
            self.wf() ==> history.wf(),
    {
        &self.history
    }

    /// Tells whether a blocking query is waiting: the loop then hands
    /// over nothing but pushes.
    pub fn is_waiting(&self) -> (waiting: bool)
        ensures
            waiting == (self@.pending != Pending::Idle),
    {
        match self.pending {
            Pending::Idle => false,
            _ => true,
        }
    }

    /// Tells whether the service has left its loop.
    pub fn is_stopped(&self) -> (stopped: bool)
        ensures
            stopped == self@.stopped,
    {
        self.stopped
    }

    /// Leaves the loop because the protocol was broken.
    fn violation(&mut self) -> (action: ServiceAction<C>)
        requires
            old(self).wf(),
        ensures
            final(self).wf(),
            final(self)@ == halted(old(self)@),
            action@ == ActionModel::<C>::Terminate(EngineError::ProtocolViolation),
            action.wf(),
    {
        self.stopped = true;
        ServiceAction::Terminate(EngineError::ProtocolViolation)
    }

    /// Takes one piece of mail and says what to do about it.
    ///
    /// A push is taken in at once. A query is answered at once where it
    /// can be; a blocking query that cannot be answered yet is kept, and
    /// answered after the first push that lets it. While a query is
    /// kept, anything but a push breaks the protocol, and so does mail
    /// whose form does not fit its request: a push with a handle for an
    /// answer, or a query without one.
    pub fn handle(&mut self, mail: Mail<C>) -> (action: ServiceAction<C>)
        requires
            old(self).wf(),
            !old(self)@.stopped,
            mail.wf(),
            acceptable(old(self)@, mail@),
        ensures
            final(self).wf(),
            final(self)@ == serve(old(self)@, mail@).0,
            action@ == serve(old(self)@, mail@).1,
            action.wf(),
    {
        match mail {
            Mail::DeadChannel => {
                self.stopped = true;
                ServiceAction::Terminate(EngineError::DeadChannel)
            },
            Mail::Message(request, expects_reply) => {
                match self.pending {
                    Pending::Idle => self.handle_idle(request, expects_reply),
                    _ => self.handle_waiting(request),
                }
            },
        }
    }

    /// Takes a request while no query is waiting.
    fn handle_idle(&mut self, request: HistoryRequest<C>, expects_reply: bool) -> (action: ServiceAction<C>)
        requires
            old(self).wf(),
            old(self)@.pending == Pending::Idle,
            request.wf(),
            acceptable(old(self)@, MailModel::Message(request@, expects_reply)),
        ensures
            final(self).wf(),
            final(self)@ == serve_idle(old(self)@, request@, expects_reply).0,
            action@ == serve_idle(old(self)@, request@, expects_reply).1,
            action.wf(),
    {
        match request {
            HistoryRequest::Push(grid) => {
                if expects_reply {
                    self.violation()
                } else {
                    self.history.push(grid);
                    ServiceAction::Continue
                }
            },
            HistoryRequest::GetGen(gen, blocking) => {
                if !expects_reply {
                    self.violation()
                } else {
                    match self.history.get_gen(gen) {
                        Some(grid) => ServiceAction::Respond(HistoryResponse::GetGen(Some(grid))),
                        None => {
                            if blocking {
                                self.pending = Pending::Gen(gen);
                                ServiceAction::Continue
                            } else {
                                ServiceAction::Respond(HistoryResponse::GetGen(None))
                            }
                        },
                    }
                }
            },
            HistoryRequest::GetDiff(ref_gen, target_gen, blocking) => {
                if !expects_reply {
                    self.violation()
                } else {
                    match self.history.get_diff(ref_gen, target_gen) {
                        Err(error) => ServiceAction::Reject(error),
                        Ok(Some(diff)) => ServiceAction::Respond(HistoryResponse::GetDiff(Some(diff))),
                        Ok(None) => {
                            if blocking {
                                self.pending = Pending::Diff(ref_gen, target_gen);
                                ServiceAction::Continue
                            } else {
                                ServiceAction::Respond(HistoryResponse::GetDiff(None))
                            }
                        },
                    }
                }
            },
        }
    }

    /// Takes a request while a query is waiting.
    fn handle_waiting(&mut self, request: HistoryRequest<C>) -> (action: ServiceAction<C>)
        requires
            old(self).wf(),
            old(self)@.pending != Pending::Idle,
            request.wf(),
            acceptable(old(self)@, MailModel::Message(request@, false)),
        ensures
            final(self).wf(),
            final(self)@ == serve_waiting(old(self)@, request@).0,
            action@ == serve_waiting(old(self)@, request@).1,
            action.wf(),
    {
        match request {
            HistoryRequest::Push(grid) => {
                self.history.push(grid);
                match self.pending {
                    Pending::Gen(gen) => {
                        match self.history.get_gen(gen) {
                            Some(response_grid) => {
                                self.pending = Pending::Idle;
                                ServiceAction::Respond(HistoryResponse::GetGen(Some(response_grid)))
                            },
                            None => ServiceAction::Continue,
                        }
                    },
                    Pending::Diff(ref_gen, target_gen) => {
                        match self.history.get_diff(ref_gen, target_gen) {
                            Ok(Some(response_diff)) => {
                                self.pending = Pending::Idle;
                                ServiceAction::Respond(HistoryResponse::GetDiff(Some(response_diff)))
                            },
                            _ => ServiceAction::Continue,
                        }
                    },
                    Pending::Idle => ServiceAction::Continue,
                }
            },
            _ => self.violation(),
        }
    }
}

} // verus!
