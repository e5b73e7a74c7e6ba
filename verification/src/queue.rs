//! Sending queued local changes to the server.
use vstd::prelude::*;

use crate::data::{SyncEntry, SyncEntryView};
use crate::greader::{Session, SessionView};
use crate::http::BodyView;
use crate::world::{Action, ActionView, Event, EventView, SyncError};

verus! {

/// Sends every queued read or starred change whose article is known to the
/// server. A change that is not accepted goes back into the queue.
#[derive(Debug)]
pub enum PushPass {
    Taking,
    Sending {
        queue: Vec<SyncEntry>,
        next: usize,
        pushed: Vec<SyncEntry>,
        failed: Vec<SyncEntry>,
    },
    Requeueing { pushed: Vec<SyncEntry>, failed: Vec<SyncEntry> },
    Done { pushed: Vec<SyncEntry>, failed: Vec<SyncEntry> },
    Broken(SyncError),
}

#[verifier::ext_equal]
pub enum PushPassView {
    Taking,
    Sending {
        queue: Seq<SyncEntryView>,
        next: nat,
        pushed: Seq<SyncEntryView>,
        failed: Seq<SyncEntryView>,
    },
    Requeueing { pushed: Seq<SyncEntryView>, failed: Seq<SyncEntryView> },
    Done { pushed: Seq<SyncEntryView>, failed: Seq<SyncEntryView> },
    Broken(SyncError),
}

impl DeepView for PushPass {
    type V = PushPassView;

    open spec fn deep_view(&self) -> PushPassView {
        match self {
            PushPass::Taking => PushPassView::Taking,
            PushPass::Sending { queue, next, pushed, failed } => PushPassView::Sending {
                queue: queue.deep_view(),
                next: *next as nat,
                pushed: pushed.deep_view(),
                failed: failed.deep_view(),
            },
            PushPass::Requeueing { pushed, failed } => PushPassView::Requeueing {
                pushed: pushed.deep_view(),
                failed: failed.deep_view(),
            },
            PushPass::Done { pushed, failed } => PushPassView::Done {
                pushed: pushed.deep_view(),
                failed: failed.deep_view(),
            },
            PushPass::Broken(error) => PushPassView::Broken(*error),
        }
    }
}

impl PushPassView {
    /// The next action, if there is one.
    pub open spec fn action(self, session: SessionView) -> Option<ActionView> {
        match self {
            PushPassView::Taking => Some(ActionView::TakeQueue),
            PushPassView::Sending { queue, next, pushed, failed } => if next < queue.len() {
                let entry = queue[next as int];
                Some(
                    ActionView::Call(
                        session.state_call(entry.remote_id, entry.field, entry.value),
                    ),
                )
            } else {
                None
            },
            PushPassView::Requeueing { pushed, failed } => Some(ActionView::Requeue(failed)),
            _ => None,
        }
    }

    /// After `next` changes of the queue: the next one is sent, or, after the
    /// last, those that failed are put back.
    pub open spec fn at(
        queue: Seq<SyncEntryView>,
        next: nat,
        pushed: Seq<SyncEntryView>,
        failed: Seq<SyncEntryView>,
    ) -> PushPassView {
        if next < queue.len() {
            PushPassView::Sending { queue, next, pushed, failed }
        } else if failed.len() > 0 {
            PushPassView::Requeueing { pushed, failed }
        } else {
            PushPassView::Done { pushed, failed }
        }
    }

    /// The state after an event.
    pub open spec fn accept(self, event: EventView) -> PushPassView {
        match self {
            PushPassView::Taking => match event {
                EventView::Queue(queue) => PushPassView::at(queue, 0, Seq::empty(), Seq::empty()),
                _ => PushPassView::Broken(event.fault()),
            },
            PushPassView::Sending { queue, next, pushed, failed } => if next >= queue.len() {
                PushPassView::at(queue, next, pushed, failed)
            } else if event is Accepted {
                PushPassView::at(queue, next + 1, pushed.push(queue[next as int]), failed)
            } else {
                PushPassView::at(queue, next + 1, pushed, failed.push(queue[next as int]))
            },
            PushPassView::Requeueing { pushed, failed } => PushPassView::Done { pushed, failed },
            _ => self,
        }
    }
}

impl PushPass {
    /// The next action, if the pass is not over.
    pub fn action(&self, session: &Session) -> (r: Option<Action>)
        ensures
            r.deep_view() == self.deep_view().action(session.deep_view()),
    {
        match self {
            PushPass::Taking => Some(Action::TakeQueue),
            PushPass::Sending { queue, next, pushed, failed } => {
                if *next < queue.len() {
                    let entry = &queue[*next];
                    Some(
                        Action::Call(
                            session.push_state(
                                entry.remote_id.as_str(),
                                entry.field.as_str(),
                                entry.value,
                            ),
                        ),
                    )
                } else {
                    None
                }
            },
            PushPass::Requeueing { pushed, failed } => Some(Action::Requeue(copy_entries(failed))),
            _ => None,
        }
    }

    fn at(
        queue: Vec<SyncEntry>,
        next: usize,
        pushed: Vec<SyncEntry>,
        failed: Vec<SyncEntry>,
    ) -> (r: Self)
        ensures
            r.deep_view() == PushPassView::at(
                queue.deep_view(),
                next as nat,
                pushed.deep_view(),
                failed.deep_view(),
            ),
    {
        if next < queue.len() {
            PushPass::Sending { queue, next, pushed, failed }
        } else if failed.len() > 0 {
            PushPass::Requeueing { pushed, failed }
        } else {
            PushPass::Done { pushed, failed }
        }
    }

    /// Takes in how the last action ended.
    pub fn accept(self, event: Event) -> (r: Self)
        ensures
            r.deep_view() == self.deep_view().accept(event.deep_view()),
    {
        match self {
            PushPass::Taking => match event {
                Event::Queue(queue) => {
                    let pushed: Vec<SyncEntry> = Vec::new();
                    let failed: Vec<SyncEntry> = Vec::new();
                    assert(pushed.deep_view() =~= Seq::<SyncEntryView>::empty());
                    assert(failed.deep_view() =~= Seq::<SyncEntryView>::empty());
                    PushPass::at(queue, 0, pushed, failed)
                },
                _ => PushPass::Broken(event.fault()),
            },
            PushPass::Sending { queue, next, pushed, failed } => {
                if next >= queue.len() {
                    return PushPass::at(queue, next, pushed, failed);
                }
                let entry = queue[next].clone();
                let ghost sent = queue.deep_view()[next as int];
                assert(entry.deep_view() == sent);
                let mut pushed = pushed;
                let mut failed = failed;
                let ghost had_pushed = pushed.deep_view();
                let ghost had_failed = failed.deep_view();
                match event {
                    Event::Accepted => {
                        pushed.push(entry);
                        assert(pushed.deep_view() =~= had_pushed.push(sent));
                    },
                    _ => {
                        failed.push(entry);
                        assert(failed.deep_view() =~= had_failed.push(sent));
                    },
                }
                PushPass::at(queue, next + 1, pushed, failed)
            },
            PushPass::Requeueing { pushed, failed } => PushPass::Done { pushed, failed },
            PushPass::Done { pushed, failed } => PushPass::Done { pushed, failed },
            PushPass::Broken(error) => PushPass::Broken(error),
        }
    }
}

fn copy_entries(entries: &Vec<SyncEntry>) -> (r: Vec<SyncEntry>)
    ensures
        r@ == entries@,
{
    let mut r: Vec<SyncEntry> = Vec::new();
    for i in 0..entries.len()
        invariant
            r@ == entries@.take(i as int),
    {
        r.push(entries[i].clone());
        assert(r@ =~= entries@.take(i + 1));
    }
    assert(entries@.take(entries@.len() as int) =~= entries@);
    r
}

impl PushPassView {
    /// The state after the events.
    pub open spec fn run(self, events: Seq<EventView>) -> PushPassView
        decreases events.len(),
    {
        if events.len() == 0 {
            self
        } else {
            self.run(events.drop_last()).accept(events.last())
        }
    }
}

/// The changes whose reply satisfies `which`.
pub open spec fn replied(
    queue: Seq<SyncEntryView>,
    replies: Seq<EventView>,
    which: spec_fn(EventView) -> bool,
) -> Seq<SyncEntryView>
    decreases replies.len(),
{
    if replies.len() == 0 {
        Seq::empty()
    } else {
        let before = replied(queue, replies.drop_last(), which);
        if which(replies.last()) {
            before.push(queue[replies.len() - 1])
        } else {
            before
        }
    }
}

/// The changes that the server accepted.
pub open spec fn accepted(queue: Seq<SyncEntryView>, replies: Seq<EventView>) -> Seq<
    SyncEntryView,
> {
    replied(queue, replies, |reply: EventView| reply is Accepted)
}

/// The changes that the server did not accept.
pub open spec fn refused(queue: Seq<SyncEntryView>, replies: Seq<EventView>) -> Seq<
    SyncEntryView,
> {
    replied(queue, replies, |reply: EventView| !(reply is Accepted))
}

/// Every queued change is sent once, in order, whatever became of those before
/// it. When all have been replied to, the pass has pushed those that the server
/// accepted and puts exactly the others back.
pub proof fn law_push_sends_each(
    queue: Seq<SyncEntryView>,
    replies: Seq<EventView>,
    session: SessionView,
)
    requires
        replies.len() <= queue.len(),
    ensures
        ({
            let start = PushPassView::Taking.accept(EventView::Queue(queue));
            let pass = start.run(replies);
            &&& replies.len() < queue.len() ==> pass.action(session) == Some(
                ActionView::Call(
                    session.state_call(
                        queue[replies.len() as int].remote_id,
                        queue[replies.len() as int].field,
                        queue[replies.len() as int].value,
                    ),
                ),
            )
            &&& replies.len() == queue.len() ==> {
                let pushed = accepted(queue, replies);
                let failed = refused(queue, replies);
                if failed.len() > 0 {
                    &&& pass == PushPassView::Requeueing { pushed, failed }
                    &&& pass.action(session) == Some(ActionView::Requeue(failed))
                } else {
                    pass == PushPassView::Done { pushed, failed }
                }
            }
        }),
{
    lemma_push_state(queue, replies);
}

proof fn lemma_push_state(queue: Seq<SyncEntryView>, replies: Seq<EventView>)
    requires
        replies.len() <= queue.len(),
    ensures
        PushPassView::Taking.accept(EventView::Queue(queue)).run(replies) == PushPassView::at(
            queue,
            replies.len(),
            accepted(queue, replies),
            refused(queue, replies),
        ),
    decreases replies.len(),
{
    if replies.len() > 0 {
        lemma_push_state(queue, replies.drop_last());
    }
}

/// No change is lost: the pushed and the returned ones together are the queue.
pub proof fn law_no_change_lost(queue: Seq<SyncEntryView>, replies: Seq<EventView>)
    requires
        replies.len() == queue.len(),
    ensures
        accepted(queue, replies).to_multiset().add(refused(queue, replies).to_multiset())
            == queue.to_multiset(),
{
    lemma_parted(queue, replies);
    assert(queue.take(replies.len() as int) =~= queue);
}

proof fn lemma_parted(queue: Seq<SyncEntryView>, replies: Seq<EventView>)
    requires
        replies.len() <= queue.len(),
    ensures
        accepted(queue, replies).to_multiset().add(refused(queue, replies).to_multiset())
            == queue.take(replies.len() as int).to_multiset(),
    decreases replies.len(),
{
    broadcast use vstd::seq_lib::group_to_multiset_ensures;

    let n = replies.len() as int;
    if n > 0 {
        lemma_parted(queue, replies.drop_last());
        let ok = accepted(queue, replies.drop_last());
        let no = refused(queue, replies.drop_last());
        let entry = queue[n - 1];
        assert(queue.take(n) =~= queue.take(n - 1).push(entry));
        if replies.last() is Accepted {
            assert(accepted(queue, replies) == ok.push(entry));
            assert(refused(queue, replies) == no);
            assert(ok.push(entry).to_multiset().add(no.to_multiset()) =~= ok.to_multiset().add(
                no.to_multiset(),
            ).insert(entry));
        } else {
            assert(accepted(queue, replies) == ok);
            assert(refused(queue, replies) == no.push(entry));
            assert(ok.to_multiset().add(no.push(entry).to_multiset()) =~= ok.to_multiset().add(
                no.to_multiset(),
            ).insert(entry));
        }
    } else {
        assert(queue.take(0) =~= Seq::empty());
        assert(accepted(queue, replies).to_multiset().add(refused(queue, replies).to_multiset())
            =~= queue.take(0).to_multiset());
    }
}

/// Putting failed changes back cannot fail the pass.
pub proof fn law_requeue_ends_pass(
    pushed: Seq<SyncEntryView>,
    failed: Seq<SyncEntryView>,
    event: EventView,
)
    ensures
        (PushPassView::Requeueing { pushed, failed }).accept(event) == (PushPassView::Done {
            pushed,
            failed,
        }),
{
}

impl PushPassView {
    /// What holds of the pass at every step.
    pub open spec fn wf(self) -> bool {
        match self {
            PushPassView::Sending { queue, next, pushed, failed } => next < queue.len(),
            _ => true,
        }
    }

    /// How far the pass is from its end: the steps that are left, and what is left
    /// of the present one.
    pub open spec fn left(self) -> (nat, nat) {
        match self {
            PushPassView::Taking => (2, 0),
            PushPassView::Sending { queue, next, pushed, failed } => (
                1,
                (queue.len() - next) as nat,
            ),
            _ => (0, 0),
        }
    }

    /// How many changes have been pushed.
    pub open spec fn count(self) -> nat {
        match self {
            PushPassView::Sending { queue, next, pushed, failed } => pushed.len(),
            PushPassView::Requeueing { pushed, failed } => pushed.len(),
            PushPassView::Done { pushed, failed } => pushed.len(),
            _ => 0,
        }
    }
}

/// The form that is sent for a queued change names its article, then, under "a"
/// where the value is true and under "r" where it is not, the starred state for the
/// field "starred" and the read state for any other, and then the write token.
pub proof fn law_queued_change_form(
    queue: Seq<SyncEntryView>,
    replies: Seq<EventView>,
    session: SessionView,
)
    requires
        replies.len() < queue.len(),
    ensures
        ({
            let pass = PushPassView::Taking.accept(EventView::Queue(queue)).run(replies);
            let entry = queue[replies.len() as int];
            &&& pass.action(session) is Some
            &&& pass.action(session)->0 is Call
            &&& pass.action(session)->0->Call_0.body == BodyView::Form(
                seq![
                    ("i"@, entry.remote_id),
                    (
                        if entry.value {
                            "a"@
                        } else {
                            "r"@
                        },
                        if entry.field == "starred"@ {
                            "user/-/state/com.google/starred"@
                        } else {
                            "user/-/state/com.google/read"@
                        },
                    ),
                    ("T"@, session.token),
                ],
            )
        }),
{
    law_push_sends_each(queue, replies, session);
}

/// A reply decides about the change that it replies to and no other: accepted, the
/// change is pushed; otherwise it is put back.
pub proof fn law_reply_decides(
    queue: Seq<SyncEntryView>,
    replies: Seq<EventView>,
    reply: EventView,
)
    ensures
        accepted(queue, Seq::empty()).len() == 0,
        refused(queue, Seq::empty()).len() == 0,
        reply is Accepted ==> accepted(queue, replies.push(reply)) == accepted(
            queue,
            replies,
        ).push(queue[replies.len() as int]) && refused(queue, replies.push(reply)) == refused(
            queue,
            replies,
        ),
        !(reply is Accepted) ==> refused(queue, replies.push(reply)) == refused(
            queue,
            replies,
        ).push(queue[replies.len() as int]) && accepted(queue, replies.push(reply)) == accepted(
            queue,
            replies,
        ),
{
    assert(replies.push(reply).drop_last() =~= replies);
}

/// The pass takes the queue first; an empty one ends it, and a queue that cannot be
/// taken breaks it.
pub proof fn law_queue_taken(session: SessionView, event: EventView)
    ensures
        PushPassView::Taking.action(session) == Some(ActionView::TakeQueue),
        PushPassView::Taking.accept(EventView::Queue(Seq::empty())) == (PushPassView::Done {
            pushed: Seq::empty(),
            failed: Seq::empty(),
        }),
        event is Unreachable || event is Refused || event is Failed
            ==> PushPassView::Taking.accept(event) == PushPassView::Broken(SyncError::Outside),
{
}

}
