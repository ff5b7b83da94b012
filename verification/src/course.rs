//! The course of a whole deployment: what holds of it whatever happens, and what its answer tells.

use vstd::prelude::*;

use crate::config::ConfigView;
use crate::deployment::{
    next_container, next_inspection, opened, ActionView, DeploymentView, EventView, StageView,
};
use crate::engine::{
    containers_by_image, empty_outcome, inspect_request, json_outcome, law_selects_exact_matches,
    list_outcome, remove_request, replace_outcome, runs_image, InspectedView, ListedView,
    OutcomeView, ReplyView,
};
use crate::error::ErrorView;
use crate::replace::{
    is_created, law_old_is_removed_only_when_ready, lemma_one_more_reply, lemma_stays_finished,
    ReplacementView,
};
use crate::server::{
    authorized_image, count_replaced, law_answer_counts_each_container, summed_up, ResponseView,
};

verus! {

impl DeploymentView {
    /// The deployment after a number of events.
    pub open spec fn run(self, events: Seq<EventView>) -> DeploymentView
        decreases events.len(),
    {
        if events.len() == 0 {
            self
        } else {
            self.run(events.drop_last()).step(events.last())
        }
    }

    /// The replies to the requests that the deployment sends, in their order.
    pub open spec fn heard(self, events: Seq<EventView>) -> Seq<ReplyView>
        decreases events.len(),
    {
        if events.len() == 0 {
            seq![]
        } else {
            let earlier = self.heard(events.drop_last());
            match events.last() {
                EventView::Replied(reply) => if self.run(events.drop_last()).action() is Send {
                    earlier.push(reply)
                } else {
                    earlier
                },
                _ => earlier,
            }
        }
    }

    /// How many replies the deployment can still wait for, once the containers are listed.
    pub open spec fn remaining(self) -> nat {
        match self.stage {
            StageView::Inspecting { bytes_received, inspected, current, waiting } => {
                1 + waiting.len() + 5 * (inspected.len() + 1 + waiting.len())
            },
            StageView::Replacing { bytes_received, matched, outcomes, current, waiting } => {
                current.remaining() + 5 * waiting.len()
            },
            _ => 0,
        }
    }

    /// The same deployment under another id.
    pub open spec fn with_id(self, trace_id: Seq<char>) -> DeploymentView {
        let stage = match self.stage {
            StageView::Finished { result: Ok(response) } => StageView::Finished {
                result: Ok(ResponseView { trace_id, ..response }),
            },
            other => other,
        };
        DeploymentView { trace_id, stage, ..self }
    }
}

/// One of the events says that the upload is complete.
pub open spec fn was_uploaded(events: Seq<EventView>) -> bool {
    exists|i: int| 0 <= i < events.len() && #[trigger] events[i] is Ended
}

/// The sum of the sizes of the parts that were received before the upload was complete.
pub open spec fn upload_size(events: Seq<EventView>) -> int
    decreases events.len(),
{
    if events.len() == 0 {
        0
    } else {
        let earlier = upload_size(events.drop_last());
        match events.last() {
            EventView::Received(size) => if was_uploaded(events.drop_last()) {
                earlier
            } else {
                earlier + size
            },
            _ => earlier,
        }
    }
}

/// The event says that the image was loaded.
pub open spec fn tells_of_load(event: EventView) -> bool {
    event is Loaded && event->Loaded_0 is Ok
}

/// One of the events says that the image was loaded.
pub open spec fn was_loaded(events: Seq<EventView>) -> bool {
    exists|i: int| 0 <= i < events.len() && tells_of_load(#[trigger] events[i])
}

/// One of the events says that the image was loaded, and a later one that its file is gone.
pub open spec fn was_loaded_and_deleted(events: Seq<EventView>) -> bool {
    exists|i: int, j: int|
        {
            &&& 0 <= i < j < events.len()
            &&& tells_of_load(#[trigger] events[i])
            &&& #[trigger] events[j] is Deleted
        }
}

/// The containers that the first of the replies lists.
pub open spec fn listed_in(heard: Seq<ReplyView>) -> Seq<ListedView> {
    list_outcome(heard[0])->Ok_0
}

/// The first of the replies lists containers, and as many replies follow it.
pub open spec fn is_listed(heard: Seq<ReplyView>) -> bool {
    &&& heard.len() > 0
    &&& list_outcome(heard[0]) is Ok
    &&& heard.len() >= 1 + listed_in(heard).len()
}

/// The listed containers, each with what the reply to its inspection gives: the replies to the
/// inspections follow the list, in its order.
pub open spec fn inspected_in(heard: Seq<ReplyView>) -> Seq<InspectedView> {
    Seq::new(
        listed_in(heard).len(),
        |i: int| listed_in(heard)[i].inspected(json_outcome(heard[1 + i])),
    )
}

/// The replies that follow the inspections.
pub open spec fn after_inspections(heard: Seq<ReplyView>) -> Seq<ReplyView> {
    heard.skip(1 + listed_in(heard).len() as int)
}

/// The listed containers that are to be dealt with.
pub open spec fn dealt_with(heard: Seq<ReplyView>, image_ref: Seq<char>) -> Seq<InspectedView> {
    containers_by_image(inspected_in(heard), image_ref)
}

/// The replies of several runs, one run after the other.
pub open spec fn joined(runs: Seq<Seq<ReplyView>>) -> Seq<ReplyView>
    decreases runs.len(),
{
    if runs.len() == 0 {
        seq![]
    } else {
        joined(runs.drop_last()) + runs.last()
    }
}

/// The outcome is that of the replacement of the container, where the given replies answer the
/// requests that follow its inspection.
pub open spec fn is_outcome_of_run(
    outcome: OutcomeView,
    container: InspectedView,
    image_ref: Seq<char>,
    replies: Seq<ReplyView>,
) -> bool {
    let replacement = opened(container, image_ref);
    &&& replacement.sent(replies).len() == replies.len()
    &&& replacement.run(replies).result() is Some
    &&& outcome == replace_outcome(container.summary, replacement.run(replies).result()->0)
}

/// The replacement of an inspected container goes on where one that began with the inspection would:
/// its requests are those of the whole replacement after the inspection, and it ends alike.
pub proof fn law_opened_continues_the_inspection(
    container: InspectedView,
    image_ref: Seq<char>,
    reply: ReplyView,
    replies: Seq<ReplyView>,
)
    requires
        container.inspect == json_outcome(reply),
    ensures
        opened(container, image_ref).run(replies) == ReplacementView::start(
            container.summary,
            image_ref,
        ).run(seq![reply] + replies),
        ReplacementView::start(container.summary, image_ref).sent(seq![reply] + replies) == seq![
            inspect_request(container.summary.id),
        ] + opened(container, image_ref).sent(replies),
{
    assert((seq![reply] + replies).drop_first() =~= replies);
    assert((seq![reply] + replies).first() == reply);
}

/// The outcomes are those of the replacements of the containers, in their order, each with replies
/// of its own.
pub open spec fn tells_of_runs(
    outcomes: Seq<OutcomeView>,
    containers: Seq<InspectedView>,
    image_ref: Seq<char>,
    runs: Seq<Seq<ReplyView>>,
) -> bool {
    &&& outcomes.len() == containers.len()
    &&& runs.len() == containers.len()
    &&& forall|i: int|
        0 <= i < containers.len() ==> is_outcome_of_run(
            #[trigger] outcomes[i],
            containers[i],
            image_ref,
            runs[i],
        )
}

/// The outcomes tell of all containers that are to be dealt with, and the replies after the
/// inspections are those of their replacements, one after the other.
pub open spec fn accounts_for(
    outcomes: Seq<OutcomeView>,
    heard: Seq<ReplyView>,
    image_ref: Seq<char>,
    runs: Seq<Seq<ReplyView>>,
) -> bool {
    &&& tells_of_runs(outcomes, dealt_with(heard, image_ref), image_ref, runs)
    &&& after_inspections(heard) == joined(runs)
}

/// The outcomes tell of the first containers that are to be dealt with; the next one is being
/// replaced, and the others follow.
spec fn is_underway(
    stage: StageView,
    heard: Seq<ReplyView>,
    image_ref: Seq<char>,
    runs: Seq<Seq<ReplyView>>,
    own: Seq<ReplyView>,
) -> bool {
    match stage {
        StageView::Replacing { bytes_received, matched, outcomes, current, waiting } => {
            let containers = dealt_with(heard, image_ref);
            let n = outcomes.len() as int;
            &&& matched == containers.len()
            &&& n < containers.len()
            &&& tells_of_runs(outcomes, containers.take(n), image_ref, runs)
            &&& waiting == containers.skip(n + 1)
            &&& current == opened(containers[n], image_ref).run(own)
            &&& opened(containers[n], image_ref).sent(own).len() == own.len()
            &&& current.result() is None
            &&& after_inspections(heard) == joined(runs) + own
        },
        _ => false,
    }
}

/// What holds of a deployment whose containers are listed and inspected.
spec fn is_replacing(
    trace_id: Seq<char>,
    image_ref: Seq<char>,
    bytes_received: int,
    stage: StageView,
    heard: Seq<ReplyView>,
) -> bool {
    &&& is_listed(heard)
    &&& match stage {
        StageView::Replacing { bytes_received: count, matched, outcomes, current, waiting } => {
            &&& count == bytes_received
            &&& exists|runs: Seq<Seq<ReplyView>>, own: Seq<ReplyView>| #[trigger]
                is_underway(stage, heard, image_ref, runs, own)
        },
        StageView::Finished { result: Ok(response) } => {
            &&& exists|runs: Seq<Seq<ReplyView>>| #[trigger]
                accounts_for(response.containers, heard, image_ref, runs)
            &&& response == summed_up(trace_id, image_ref, bytes_received, response.containers)
        },
        _ => false,
    }
}

/// What holds of a deployment whose containers are listed and being inspected.
spec fn is_inspecting(
    inspected: Seq<InspectedView>,
    current: ListedView,
    waiting: Seq<ListedView>,
    heard: Seq<ReplyView>,
) -> bool {
    let listed = listed_in(heard);
    let n = inspected.len() as int;
    &&& heard.len() == 1 + n
    &&& list_outcome(heard[0]) is Ok
    &&& n < listed.len()
    &&& forall|i: int|
        0 <= i < n ==> #[trigger] inspected[i] == listed[i].inspected(json_outcome(heard[1 + i]))
    &&& current == listed[n]
    &&& waiting == listed.skip(n + 1)
}

/// What holds of a deployment that the given events led to.
spec fn is_reached(
    state: DeploymentView,
    events: Seq<EventView>,
    heard: Seq<ReplyView>,
) -> bool {
    match state.stage {
        StageView::Receiving { bytes_received } => {
            &&& !was_uploaded(events)
            &&& bytes_received == upload_size(events)
            &&& heard.len() == 0
        },
        StageView::Loading { bytes_received } => {
            &&& was_uploaded(events)
            &&& bytes_received == upload_size(events)
            &&& heard.len() == 0
        },
        StageView::Deleting { bytes_received, loaded } => {
            &&& was_uploaded(events)
            &&& bytes_received == upload_size(events)
            &&& heard.len() == 0
            &&& loaded is Ok ==> was_loaded(events)
        },
        StageView::Listing { bytes_received } => {
            &&& was_uploaded(events)
            &&& bytes_received == upload_size(events)
            &&& heard.len() == 0
            &&& was_loaded_and_deleted(events)
        },
        StageView::Inspecting { bytes_received, inspected, current, waiting } => {
            &&& was_uploaded(events)
            &&& bytes_received == upload_size(events)
            &&& was_loaded_and_deleted(events)
            &&& is_inspecting(inspected, current, waiting, heard)
        },
        StageView::Replacing { .. } | StageView::Finished { result: Ok(_) } => {
            &&& was_uploaded(events)
            &&& was_loaded_and_deleted(events)
            &&& is_replacing(
                state.trace_id,
                state.image_ref,
                upload_size(events),
                state.stage,
                heard,
            )
        },
        StageView::Finished { result: Err(_) } => true,
    }
}

proof fn lemma_more_events(events: Seq<EventView>, event: EventView)
    ensures
        was_uploaded(events) ==> was_uploaded(events.push(event)),
        event is Ended ==> was_uploaded(events.push(event)),
        !was_uploaded(events) && event !is Ended ==> !was_uploaded(events.push(event)),
        was_uploaded(events) || event !is Received ==> upload_size(events.push(event))
            == upload_size(events),
        !was_uploaded(events) && event is Received ==> upload_size(events.push(event))
            == upload_size(events) + event->Received_0,
        was_loaded(events) ==> was_loaded(events.push(event)),
        tells_of_load(event) ==> was_loaded(events.push(event)),
        was_loaded_and_deleted(events) ==> was_loaded_and_deleted(events.push(event)),
        was_loaded(events) && event is Deleted ==> was_loaded_and_deleted(events.push(event)),
{
    let more = events.push(event);
    assert(more.drop_last() =~= events);
    assert(more[events.len() as int] == event);
    if was_uploaded(events) {
        let i = choose|i: int| 0 <= i < events.len() && #[trigger] events[i] is Ended;
        assert(more[i] == events[i]);
    }
    if was_uploaded(more) && event !is Ended {
        let i = choose|i: int| 0 <= i < more.len() && #[trigger] more[i] is Ended;
        assert(events[i] == more[i]);
    }
    if was_loaded(events) {
        let i = choose|i: int| 0 <= i < events.len() && tells_of_load(#[trigger] events[i]);
        assert(more[i] == events[i]);
    }
    if was_loaded_and_deleted(events) {
        let (i, j) = choose|i: int, j: int|
            {
                &&& 0 <= i < j < events.len()
                &&& tells_of_load(#[trigger] events[i])
                &&& #[trigger] events[j] is Deleted
            };
        assert(more[i] == events[i]);
        assert(more[j] == events[j]);
    }
}

/// More replies change nothing of the inspections.
proof fn lemma_more_replies(heard: Seq<ReplyView>, reply: ReplyView)
    requires
        is_listed(heard),
    ensures
        is_listed(heard.push(reply)),
        listed_in(heard.push(reply)) == listed_in(heard),
        inspected_in(heard.push(reply)) == inspected_in(heard),
{
    assert(inspected_in(heard.push(reply)) =~= inspected_in(heard));
}

/// The next container, or the answer, where the outcomes tell of the first containers.
proof fn lemma_next_container(
    trace_id: Seq<char>,
    image_ref: Seq<char>,
    bytes_received: int,
    outcomes: Seq<OutcomeView>,
    waiting: Seq<InspectedView>,
    heard: Seq<ReplyView>,
    runs: Seq<Seq<ReplyView>>,
)
    requires
        is_listed(heard),
        outcomes.len() <= dealt_with(heard, image_ref).len(),
        tells_of_runs(
            outcomes,
            dealt_with(heard, image_ref).take(outcomes.len() as int),
            image_ref,
            runs,
        ),
        waiting == dealt_with(heard, image_ref).skip(outcomes.len() as int),
        after_inspections(heard) == joined(runs),
    ensures
        is_replacing(
            trace_id,
            image_ref,
            bytes_received,
            next_container(
                trace_id,
                image_ref,
                bytes_received,
                dealt_with(heard, image_ref).len() as int,
                outcomes,
                waiting,
            ),
            heard,
        ),
    decreases waiting.len(),
{
    let containers = dealt_with(heard, image_ref);
    let n = outcomes.len() as int;
    let matched = containers.len() as int;
    let stage = next_container(trace_id, image_ref, bytes_received, matched, outcomes, waiting);
    if waiting.len() == 0 {
        assert(containers.take(n) =~= containers);
        assert(accounts_for(outcomes, heard, image_ref, runs));
    } else {
        assert(waiting[0] == containers[n]);
        assert(waiting.drop_first() =~= containers.skip(n + 1));
        let current = opened(waiting[0], image_ref);
        let none = Seq::<ReplyView>::empty();
        assert(current.run(none) == current);
        assert(current.sent(none).len() == 0);
        if current.result() is Some {
            let one = replace_outcome(waiting[0].summary, current.result()->0);
            lemma_one_more_run(outcomes, containers, image_ref, runs, one, none);
            assert(joined(runs.push(none)) =~= joined(runs)) by {
                assert(runs.push(none).drop_last() =~= runs);
            }
            lemma_next_container(
                trace_id,
                image_ref,
                bytes_received,
                outcomes.push(one),
                waiting.drop_first(),
                heard,
                runs.push(none),
            );
        } else {
            assert(joined(runs) + none =~= joined(runs));
            assert(is_underway(stage, heard, image_ref, runs, none));
        }
    }
}

/// One more outcome tells of one more container.
proof fn lemma_one_more_run(
    outcomes: Seq<OutcomeView>,
    containers: Seq<InspectedView>,
    image_ref: Seq<char>,
    runs: Seq<Seq<ReplyView>>,
    one: OutcomeView,
    own: Seq<ReplyView>,
)
    requires
        outcomes.len() < containers.len(),
        tells_of_runs(outcomes, containers.take(outcomes.len() as int), image_ref, runs),
        is_outcome_of_run(one, containers[outcomes.len() as int], image_ref, own),
    ensures
        tells_of_runs(
            outcomes.push(one),
            containers.take(outcomes.len() as int + 1),
            image_ref,
            runs.push(own),
        ),
{
    let n = outcomes.len() as int;
    assert forall|i: int| 0 <= i < n + 1 implies is_outcome_of_run(
        #[trigger] outcomes.push(one)[i],
        containers.take(n + 1)[i],
        image_ref,
        runs.push(own)[i],
    ) by {
        if i < n {
            assert(is_outcome_of_run(outcomes[i], containers.take(n)[i], image_ref, runs[i]));
        }
    }
}

/// A replacement keeps its container.
proof fn lemma_keeps_container(state: ReplacementView, replies: Seq<ReplyView>)
    ensures
        state.run(replies).container == state.container,
    decreases replies.len(),
{
    if replies.len() > 0 {
        lemma_keeps_container(state.advance(replies.first()), replies.drop_first());
    }
}

proof fn lemma_inspected(
    state: DeploymentView,
    events: Seq<EventView>,
    heard: Seq<ReplyView>,
    reply: ReplyView,
)
    requires
        is_reached(state, events, heard),
        state.stage is Inspecting,
    ensures
        is_reached(
            state.step(EventView::Replied(reply)),
            events.push(EventView::Replied(reply)),
            heard.push(reply),
        ),
{
    lemma_more_events(events, EventView::Replied(reply));
    let more = heard.push(reply);
    match state.stage {
        StageView::Inspecting { bytes_received, inspected, current, waiting } => {
            let one = current.inspected(json_outcome(reply));
            let all = inspected.push(one);
            let listed = listed_in(heard);
            assert(listed_in(more) == listed);
            if waiting.len() > 0 {
                assert(waiting[0] == listed[inspected.len() as int + 1]);
                assert(waiting.drop_first() =~= listed.skip(inspected.len() as int + 2));
                assert forall|i: int| 0 <= i < all.len() implies #[trigger] all[i] == listed[i].inspected(json_outcome(more[1 + i])) by {
                    if i < inspected.len() {
                        assert(inspected[i] == listed[i].inspected(json_outcome(heard[1 + i])));
                    }
                }
            } else {
                assert(listed.len() == all.len());
                assert forall|i: int| 0 <= i < all.len() implies all[i] == inspected_in(
                    more,
                )[i] by {
                    if i < inspected.len() {
                        assert(inspected[i] == listed[i].inspected(json_outcome(heard[1 + i])));
                    }
                }
                assert(all =~= inspected_in(more));
                lemma_selected(state.trace_id, state.image_ref, bytes_received, more);
            }
        },
        _ => {},
    }
}

/// The first container that is dealt with, or the answer, where all are inspected.
proof fn lemma_selected(
    trace_id: Seq<char>,
    image_ref: Seq<char>,
    bytes_received: int,
    heard: Seq<ReplyView>,
)
    requires
        is_listed(heard),
        heard.len() == 1 + listed_in(heard).len(),
    ensures
        is_replacing(
            trace_id,
            image_ref,
            bytes_received,
            next_inspection(trace_id, image_ref, bytes_received, inspected_in(heard), seq![]),
            heard,
        ),
{
    let containers = dealt_with(heard, image_ref);
    assert(containers.skip(0) =~= containers);
    assert(containers.take(0) =~= seq![]);
    assert(after_inspections(heard) =~= joined(seq![]));
    lemma_next_container(
        trace_id,
        image_ref,
        bytes_received,
        seq![],
        containers,
        heard,
        seq![],
    );
}

proof fn lemma_replaced(
    state: DeploymentView,
    events: Seq<EventView>,
    heard: Seq<ReplyView>,
    reply: ReplyView,
)
    requires
        is_reached(state, events, heard),
        state.stage is Replacing,
    ensures
        is_reached(
            state.step(EventView::Replied(reply)),
            events.push(EventView::Replied(reply)),
            heard.push(reply),
        ),
{
    lemma_more_events(events, EventView::Replied(reply));
    let more = heard.push(reply);
    lemma_more_replies(heard, reply);
    let (runs, own) = choose|runs: Seq<Seq<ReplyView>>, own: Seq<ReplyView>| #[trigger]
        is_underway(state.stage, heard, state.image_ref, runs, own);
    match state.stage {
        StageView::Replacing { bytes_received, matched, outcomes, current, waiting } => {
            let containers = dealt_with(heard, state.image_ref);
            let n = outcomes.len() as int;
            let start = opened(containers[n], state.image_ref);
            lemma_one_more_reply(start, own, reply);
            lemma_keeps_container(start, own.push(reply));
            let next = current.advance(reply);
            assert(after_inspections(more) =~= after_inspections(heard).push(reply));
            assert(joined(runs) + own.push(reply) =~= (joined(runs) + own).push(reply));
            if next.result() is Some {
                let one = replace_outcome(next.container, next.result()->0);
                lemma_one_more_run(
                    outcomes,
                    containers,
                    state.image_ref,
                    runs,
                    one,
                    own.push(reply),
                );
                assert(runs.push(own.push(reply)).drop_last() =~= runs);
                lemma_next_container(
                    state.trace_id,
                    state.image_ref,
                    bytes_received,
                    outcomes.push(one),
                    waiting,
                    more,
                    runs.push(own.push(reply)),
                );
            } else {
                assert(is_underway(
                    state.step(EventView::Replied(reply)).stage,
                    more,
                    state.image_ref,
                    runs,
                    own.push(reply),
                ));
            }
        },
        _ => {},
    }
}

proof fn lemma_reached(
    state: DeploymentView,
    events: Seq<EventView>,
    heard: Seq<ReplyView>,
    event: EventView,
)
    requires
        is_reached(state, events, heard),
    ensures
        is_reached(
            state.step(event),
            events.push(event),
            if event is Replied && state.action() is Send {
                heard.push(event->Replied_0)
            } else {
                heard
            },
        ),
{
    lemma_more_events(events, event);
    match state.stage {
        StageView::Listing { bytes_received } => {
            if event is Replied && list_outcome(event->Replied_0) is Ok {
                let more = heard.push(event->Replied_0);
                let listed = listed_in(more);
                if listed.len() == 0 {
                    assert(inspected_in(more) =~= seq![]);
                    assert(listed =~= seq![]);
                    lemma_selected(state.trace_id, state.image_ref, bytes_received, more);
                } else {
                    assert(listed.drop_first() =~= listed.skip(1));
                }
            }
        },
        StageView::Inspecting { .. } => {
            if event is Replied {
                lemma_inspected(state, events, heard, event->Replied_0);
            }
        },
        StageView::Replacing { .. } => {
            if event is Replied {
                lemma_replaced(state, events, heard, event->Replied_0);
            }
        },
        _ => {},
    }
}

proof fn lemma_run_is_reached(
    trace_id: Seq<char>,
    image_ref: Seq<char>,
    events: Seq<EventView>,
)
    ensures
        ({
            let start = DeploymentView::start(trace_id, image_ref);
            &&& is_reached(start.run(events), events, start.heard(events))
            &&& start.run(events).trace_id == trace_id
            &&& start.run(events).image_ref == image_ref
        }),
    decreases events.len(),
{
    let start = DeploymentView::start(trace_id, image_ref);
    if events.len() > 0 {
        let earlier = events.drop_last();
        lemma_run_is_reached(trace_id, image_ref, earlier);
        lemma_reached(start.run(earlier), earlier, start.heard(earlier), events.last());
        assert(earlier.push(events.last()) == events);
    }
}

/// The engine is asked to load the image only after the upload is complete.
pub proof fn law_load_waits_for_the_upload(
    trace_id: Seq<char>,
    image_ref: Seq<char>,
    events: Seq<EventView>,
)
    requires
        DeploymentView::start(trace_id, image_ref).run(events).action() is Load,
    ensures
        was_uploaded(events),
{
    lemma_run_is_reached(trace_id, image_ref, events);
}

/// The engine is asked for containers, and to change one, only after it has loaded the image and
/// the uploaded file is gone.
pub proof fn law_containers_wait_for_the_image(
    trace_id: Seq<char>,
    image_ref: Seq<char>,
    events: Seq<EventView>,
)
    requires
        DeploymentView::start(trace_id, image_ref).run(events).action() is Send,
    ensures
        was_loaded_and_deleted(events),
{
    lemma_run_is_reached(trace_id, image_ref, events);
}

/// An answer that tells of a deployment tells of the listed containers that are to be dealt with,
/// in their order, and of each the outcome of its own replacement over the replies to its own
/// requests; there were no other requests after the inspections. The image had been loaded and its
/// file deleted. The answer carries the id and the image of the request, the size of the upload and
/// the right counts.
pub proof fn law_answer_tells_of_each_run(
    trace_id: Seq<char>,
    image_ref: Seq<char>,
    events: Seq<EventView>,
    response: ResponseView,
)
    requires
        DeploymentView::start(trace_id, image_ref).run(events).result() == Some(
            Ok::<ResponseView, ErrorView>(response),
        ),
    ensures
        was_loaded_and_deleted(events),
        is_listed(DeploymentView::start(trace_id, image_ref).heard(events)),
        exists|runs: Seq<Seq<ReplyView>>| #[trigger]
            accounts_for(
                response.containers,
                DeploymentView::start(trace_id, image_ref).heard(events),
                image_ref,
                runs,
            ),
        response.trace_id == trace_id,
        response.image_ref == image_ref,
        response.bytes_received == upload_size(events),
        response.replaced == count_replaced(response.containers),
        response.replaced + response.failed == response.containers.len(),
{
    lemma_run_is_reached(trace_id, image_ref, events);
    law_answer_counts_each_container(
        trace_id,
        image_ref,
        response.bytes_received,
        response.containers,
    );
}

/// A container that is being replaced is a listed one whose inspection shows that it runs exactly
/// the image.
pub proof fn law_only_containers_of_the_image_change(
    trace_id: Seq<char>,
    image_ref: Seq<char>,
    events: Seq<EventView>,
)
    requires
        DeploymentView::start(trace_id, image_ref).run(events).stage is Replacing,
    ensures
        ({
            let start = DeploymentView::start(trace_id, image_ref);
            &&& is_listed(start.heard(events))
            &&& exists|one: InspectedView|
                {
                    &&& #[trigger] inspected_in(start.heard(events)).contains(one)
                    &&& one.summary == start.run(events).stage->Replacing_current.container
                    &&& one.inspect is Ok
                    &&& runs_image(one.inspect->Ok_0, image_ref)
                }
        }),
{
    let start = DeploymentView::start(trace_id, image_ref);
    let heard = start.heard(events);
    let state = start.run(events);
    lemma_run_is_reached(trace_id, image_ref, events);
    let (runs, own) = choose|runs: Seq<Seq<ReplyView>>, own: Seq<ReplyView>| #[trigger]
        is_underway(state.stage, heard, image_ref, runs, own);
    let containers = dealt_with(heard, image_ref);
    let n = state.stage->outcomes.len() as int;
    let one = containers[n];
    assert(containers.contains(one));
    lemma_keeps_container(opened(one, image_ref), own);
    if one.inspect is Err {
        lemma_stays_finished(opened(one, image_ref), own);
    }
    law_selects_exact_matches(inspected_in(heard), image_ref, one);
}

/// The replies are those of a replacement that began with the inspection of its container and came
/// to the given state: each of them answers a request of its own.
pub open spec fn is_course_of(
    replies: Seq<ReplyView>,
    current: ReplacementView,
    image_ref: Seq<char>,
) -> bool {
    let start = ReplacementView::start(current.container, image_ref);
    start.run(replies) == current && start.sent(replies).len() == replies.len()
}

/// The replacement that is under way in a deployment is the run of a whole replacement, so that all
/// that holds of such a run holds of it.
pub proof fn law_replacement_is_a_whole_run(
    trace_id: Seq<char>,
    image_ref: Seq<char>,
    events: Seq<EventView>,
)
    requires
        DeploymentView::start(trace_id, image_ref).run(events).stage is Replacing,
    ensures
        exists|replies: Seq<ReplyView>| #[trigger]
            is_course_of(
                replies,
                DeploymentView::start(trace_id, image_ref).run(events).stage->Replacing_current,
                image_ref,
            ),
{
    let start = DeploymentView::start(trace_id, image_ref);
    let heard = start.heard(events);
    let stage = start.run(events).stage;
    lemma_run_is_reached(trace_id, image_ref, events);
    let (runs, own) = choose|runs: Seq<Seq<ReplyView>>, own: Seq<ReplyView>| #[trigger]
        is_underway(stage, heard, image_ref, runs, own);
    let containers = dealt_with(heard, image_ref);
    let one = containers[stage->outcomes.len() as int];
    assert(containers.contains(one));
    law_selects_exact_matches(inspected_in(heard), image_ref, one);
    let i = choose|i: int| 0 <= i < inspected_in(heard).len() && inspected_in(heard)[i] == one;
    let reply = heard[1 + i];
    law_opened_continues_the_inspection(one, image_ref, reply, own);
    lemma_keeps_container(opened(one, image_ref), own);
    assert(is_course_of(seq![reply] + own, stage->Replacing_current, image_ref));
}

/// In a deployment, an old container is to be removed only after the new one was created and the
/// old one was stopped.
pub proof fn law_deployment_removes_only_when_ready(
    trace_id: Seq<char>,
    image_ref: Seq<char>,
    events: Seq<EventView>,
)
    requires
        DeploymentView::start(trace_id, image_ref).run(events).stage is Replacing,
        DeploymentView::start(trace_id, image_ref).run(events).action() == ActionView::Send(
            remove_request(
                DeploymentView::start(trace_id, image_ref).run(
                    events,
                ).stage->Replacing_current.container.id,
                false,
            ),
        ),
    ensures
        exists|replies: Seq<ReplyView>, new_id: Seq<char>|
            {
                &&& #[trigger] is_course_of(
                    replies,
                    DeploymentView::start(trace_id, image_ref).run(
                        events,
                    ).stage->Replacing_current,
                    image_ref,
                )
                &&& replies.len() == 3
                &&& #[trigger] is_created(image_ref, replies, new_id)
                &&& empty_outcome(replies[2]) is Ok
            },
{
    let current = DeploymentView::start(trace_id, image_ref).run(events).stage->Replacing_current;
    law_replacement_is_a_whole_run(trace_id, image_ref, events);
    let replies = choose|replies: Seq<ReplyView>| #[trigger]
        is_course_of(replies, current, image_ref);
    let start = ReplacementView::start(current.container, image_ref);
    let more = replies.push(ReplyView::Failed(seq![]));
    lemma_one_more_reply(start, replies, ReplyView::Failed(seq![]));
    assert(start.sent(more)[replies.len() as int] == current.request()->0);
    law_old_is_removed_only_when_ready(
        current.container,
        image_ref,
        more,
        replies.len() as int,
    );
    let new_id = choose|new_id: Seq<char>| is_created(image_ref, more, new_id);
    assert(is_created(image_ref, replies, new_id));
}

/// An answer says of a container that it was replaced only where its inspection showed that it
/// runs exactly the image. It tells of every container of which that was shown, and of every one
/// that the list names under the image and that could not be inspected, and of no other one.
pub proof fn law_answer_tells_of_the_image(
    trace_id: Seq<char>,
    image_ref: Seq<char>,
    events: Seq<EventView>,
    response: ResponseView,
    i: int,
)
    requires
        DeploymentView::start(trace_id, image_ref).run(events).result() == Some(
            Ok::<ResponseView, ErrorView>(response),
        ),
    ensures
        ({
            let heard = DeploymentView::start(trace_id, image_ref).heard(events);
            let inspected = inspected_in(heard);
            let dealt = dealt_with(heard, image_ref);
            &&& response.containers.len() == dealt.len()
            &&& 0 <= i < dealt.len() ==> {
                &&& response.containers[i].container_id == dealt[i].summary.id
                &&& response.containers[i].container_name == dealt[i].summary.name
                &&& response.containers[i].status is Replaced ==> {
                    &&& dealt[i].inspect is Ok
                    &&& runs_image(dealt[i].inspect->Ok_0, image_ref)
                }
            }
            &&& 0 <= i < inspected.len() && inspected[i].inspect is Ok ==> (dealt.contains(
                inspected[i],
            ) <==> runs_image(inspected[i].inspect->Ok_0, image_ref))
            &&& 0 <= i < inspected.len() && inspected[i].inspect is Err ==> (dealt.contains(
                inspected[i],
            ) <==> inspected[i].listed_image == Some(image_ref))
        }),
{
    let heard = DeploymentView::start(trace_id, image_ref).heard(events);
    let inspected = inspected_in(heard);
    let dealt = dealt_with(heard, image_ref);
    law_answer_tells_of_each_run(trace_id, image_ref, events, response);
    let runs = choose|runs: Seq<Seq<ReplyView>>| #[trigger]
        accounts_for(response.containers, heard, image_ref, runs);
    if 0 <= i < dealt.len() {
        let outcome = response.containers[i];
        assert(is_outcome_of_run(outcome, dealt[i], image_ref, runs[i]));
        assert(dealt.contains(dealt[i]));
        law_selects_exact_matches(inspected, image_ref, dealt[i]);
        if dealt[i].inspect is Err {
            lemma_stays_finished(opened(dealt[i], image_ref), runs[i]);
        }
    }
    if 0 <= i < inspected.len() {
        assert(inspected.contains(inspected[i]));
        law_selects_exact_matches(inspected, image_ref, inspected[i]);
    }
}

/// The request is to be answered exactly where there is a result.
pub proof fn law_answers_exactly_with_a_result(
    trace_id: Seq<char>,
    image_ref: Seq<char>,
    events: Seq<EventView>,
)
    ensures
        DeploymentView::start(trace_id, image_ref).run(events).action() is Answer
            <==> DeploymentView::start(trace_id, image_ref).run(events).result() is Some,
{
    lemma_run_is_reached(trace_id, image_ref, events);
}

/// Whether or not the engine loaded the image, the uploaded file is deleted next, and nothing else
/// happens before that.
pub proof fn law_upload_is_always_deleted(
    state: DeploymentView,
    loaded: Result<(), ErrorView>,
    event: EventView,
)
    requires
        state.stage is Loading,
    ensures
        state.step(EventView::Loaded(loaded)).action() is Delete,
        event !is Deleted ==> state.step(EventView::Loaded(loaded)).step(event) == state.step(
            EventView::Loaded(loaded),
        ),
        event !is Loaded ==> state.step(event) == state,
{
}

/// Where the upload breaks off, the request is answered with the status 400; where it cannot be
/// written, with 500. Either way the engine is not asked for anything.
pub proof fn law_failed_upload_ends_the_deployment(state: DeploymentView, text: Seq<char>)
    requires
        state.stage is Receiving,
    ensures
        state.step(EventView::Broken).result() == Some(
            Err::<ResponseView, ErrorView>(ErrorView::InvalidBody),
        ),
        ErrorView::InvalidBody.status() == 400,
        state.step(EventView::Unwritten(text)).result() == Some(
            Err::<ResponseView, ErrorView>(ErrorView::ConfigRead(text)),
        ),
        ErrorView::ConfigRead(text).status() == 500,
{
}

/// Where the engine did not load the image, the request is answered with the engine's error as
/// soon as the uploaded file is deleted: no container is touched.
pub proof fn law_failed_load_ends_the_deployment(state: DeploymentView, error: ErrorView)
    requires
        state.stage is Loading,
    ensures
        state.step(EventView::Loaded(Err(error))).step(EventView::Deleted).result() == Some(
            Err::<ResponseView, ErrorView>(error),
        ),
{
}

/// What is loaded counts the bytes of all parts that were received before the upload was complete.
pub proof fn law_upload_is_counted(
    trace_id: Seq<char>,
    image_ref: Seq<char>,
    events: Seq<EventView>,
)
    requires
        DeploymentView::start(trace_id, image_ref).run(events).action() is Load,
    ensures
        DeploymentView::start(trace_id, image_ref).run(events).action() == ActionView::Load(
            upload_size(events),
        ),
{
    lemma_run_is_reached(trace_id, image_ref, events);
}

/// The events in which the engine gives the replies.
pub open spec fn reply_events(replies: Seq<ReplyView>) -> Seq<EventView> {
    replies.map_values(|reply: ReplyView| EventView::Replied(reply))
}

/// The replacement that is under way is not finished, or the request can be answered.
spec fn is_moving(state: DeploymentView) -> bool {
    match state.stage {
        StageView::Inspecting { .. } => true,
        StageView::Replacing { bytes_received, matched, outcomes, current, waiting } => {
            current.result() is None
        },
        StageView::Finished { result } => result is Ok,
        _ => false,
    }
}

proof fn lemma_next_is_moving(
    state: DeploymentView,
    bytes_received: int,
    matched: int,
    outcomes: Seq<OutcomeView>,
    waiting: Seq<InspectedView>,
)
    requires
        state.stage == next_container(
            state.trace_id,
            state.image_ref,
            bytes_received,
            matched,
            outcomes,
            waiting,
        ),
    ensures
        is_moving(state),
        state.remaining() <= 5 * waiting.len(),
    decreases waiting.len(),
{
    if waiting.len() > 0 {
        let current = opened(waiting[0], state.image_ref);
        if current.result() is Some {
            lemma_next_is_moving(
                state,
                bytes_received,
                matched,
                outcomes.push(replace_outcome(waiting[0].summary, current.result()->0)),
                waiting.drop_first(),
            );
        }
    }
}

proof fn lemma_selection_is_part(containers: Seq<InspectedView>, image_ref: Seq<char>)
    ensures
        containers_by_image(containers, image_ref).len() <= containers.len(),
    decreases containers.len(),
{
    if containers.len() > 0 {
        lemma_selection_is_part(containers.drop_last(), image_ref);
    }
}

proof fn lemma_inspection_is_moving(
    state: DeploymentView,
    bytes_received: int,
    inspected: Seq<InspectedView>,
    waiting: Seq<ListedView>,
)
    requires
        state.stage == next_inspection(
            state.trace_id,
            state.image_ref,
            bytes_received,
            inspected,
            waiting,
        ),
    ensures
        is_moving(state),
        state.remaining() <= waiting.len() + 5 * (inspected.len() + waiting.len()),
{
    if waiting.len() == 0 {
        let containers = containers_by_image(inspected, state.image_ref);
        lemma_selection_is_part(inspected, state.image_ref);
        lemma_next_is_moving(
            state,
            bytes_received,
            containers.len() as int,
            seq![],
            containers,
        );
    }
}

proof fn lemma_moves(state: DeploymentView, reply: ReplyView)
    requires
        is_moving(state),
    ensures
        is_moving(state.step(EventView::Replied(reply))),
        state.stage is Finished || state.step(EventView::Replied(reply)).remaining()
            < state.remaining(),
{
    let next = state.step(EventView::Replied(reply));
    match state.stage {
        StageView::Inspecting { bytes_received, inspected, current, waiting } => {
            let one = current.inspected(json_outcome(reply));
            lemma_inspection_is_moving(next, bytes_received, inspected.push(one), waiting);
        },
        StageView::Replacing { bytes_received, matched, outcomes, current, waiting } => {
            let after = current.advance(reply);
            if after.result() is Some {
                lemma_next_is_moving(
                    next,
                    bytes_received,
                    matched,
                    outcomes.push(replace_outcome(after.container, after.result()->0)),
                    waiting,
                );
            }
        },
        _ => {},
    }
}

proof fn lemma_replies_finish(state: DeploymentView, replies: Seq<ReplyView>)
    requires
        is_moving(state),
        replies.len() >= state.remaining(),
    ensures
        state.run(reply_events(replies)).result() is Some,
        state.run(reply_events(replies)).result()->0 is Ok,
    decreases replies.len(),
{
    if replies.len() > 0 {
        lemma_run_from(state, reply_events(replies));
        assert(reply_events(replies).first() == EventView::Replied(replies.first()));
        assert(reply_events(replies).drop_first() == reply_events(replies.drop_first()));
        lemma_moves(state, replies.first());
        lemma_replies_finish(
            state.step(EventView::Replied(replies.first())),
            replies.drop_first(),
        );
    }
}

/// A run can be taken from its first event as well.
proof fn lemma_run_from(state: DeploymentView, events: Seq<EventView>)
    requires
        events.len() > 0,
    ensures
        state.run(events) == state.step(events.first()).run(events.drop_first()),
    decreases events.len(),
{
    if events.len() > 1 {
        lemma_run_from(state, events.drop_last());
        assert(events.drop_last().first() == events.first());
        assert(events.drop_last().drop_first() == events.drop_first().drop_last());
        assert(events.drop_first().last() == events.last());
    } else {
        reveal_with_fuel(DeploymentView::run, 2);
    }
}

/// Once the containers are listed, the request is answered after six replies for each of them at
/// the latest, and never with an error: a container that cannot be inspected or replaced keeps none
/// of the others from being replaced.
pub proof fn law_listing_leads_to_an_answer(
    state: DeploymentView,
    list: ReplyView,
    replies: Seq<ReplyView>,
)
    requires
        state.stage is Listing,
        list_outcome(list) is Ok,
        replies.len() >= 6 * list_outcome(list)->Ok_0.len(),
    ensures
        ({
            let listed = state.step(EventView::Replied(list));
            &&& listed.run(reply_events(replies)).result() is Some
            &&& listed.run(reply_events(replies)).result()->0 is Ok
        }),
{
    let listed = state.step(EventView::Replied(list));
    lemma_inspection_is_moving(
        listed,
        state.stage->Listing_bytes_received,
        seq![],
        list_outcome(list)->Ok_0,
    );
    lemma_replies_finish(listed, replies);
}

proof fn lemma_next_under_another_id(
    trace_id: Seq<char>,
    other: Seq<char>,
    image_ref: Seq<char>,
    bytes_received: int,
    matched: int,
    outcomes: Seq<OutcomeView>,
    waiting: Seq<InspectedView>,
)
    ensures
        (DeploymentView {
            trace_id,
            image_ref,
            stage: next_container(
                trace_id,
                image_ref,
                bytes_received,
                matched,
                outcomes,
                waiting,
            ),
        }).with_id(other) == (DeploymentView {
            trace_id: other,
            image_ref,
            stage: next_container(other, image_ref, bytes_received, matched, outcomes, waiting),
        }),
    decreases waiting.len(),
{
    if waiting.len() > 0 {
        let current = opened(waiting[0], image_ref);
        if current.result() is Some {
            lemma_next_under_another_id(
                trace_id,
                other,
                image_ref,
                bytes_received,
                matched,
                outcomes.push(replace_outcome(waiting[0].summary, current.result()->0)),
                waiting.drop_first(),
            );
        }
    }
}

proof fn lemma_inspection_under_another_id(
    trace_id: Seq<char>,
    other: Seq<char>,
    image_ref: Seq<char>,
    bytes_received: int,
    inspected: Seq<InspectedView>,
    waiting: Seq<ListedView>,
)
    ensures
        (DeploymentView {
            trace_id,
            image_ref,
            stage: next_inspection(trace_id, image_ref, bytes_received, inspected, waiting),
        }).with_id(other) == (DeploymentView {
            trace_id: other,
            image_ref,
            stage: next_inspection(other, image_ref, bytes_received, inspected, waiting),
        }),
{
    let containers = containers_by_image(inspected, image_ref);
    lemma_next_under_another_id(
        trace_id,
        other,
        image_ref,
        bytes_received,
        containers.len() as int,
        seq![],
        containers,
    );
}

proof fn lemma_step_under_another_id(
    state: DeploymentView,
    event: EventView,
    other: Seq<char>,
)
    ensures
        state.step(event).with_id(other) == state.with_id(other).step(event),
{
    if event is Replied {
        let reply = event->Replied_0;
        match state.stage {
            StageView::Listing { bytes_received } => {
                if list_outcome(reply) is Ok {
                    lemma_inspection_under_another_id(
                        state.trace_id,
                        other,
                        state.image_ref,
                        bytes_received,
                        seq![],
                        list_outcome(reply)->Ok_0,
                    );
                }
            },
            StageView::Inspecting { bytes_received, inspected, current, waiting } => {
                let one = current.inspected(json_outcome(reply));
                lemma_inspection_under_another_id(
                    state.trace_id,
                    other,
                    state.image_ref,
                    bytes_received,
                    inspected.push(one),
                    waiting,
                );
            },
            StageView::Replacing { bytes_received, matched, outcomes, current, waiting } => {
                let next = current.advance(reply);
                if next.result() is Some {
                    lemma_next_under_another_id(
                        state.trace_id,
                        other,
                        state.image_ref,
                        bytes_received,
                        matched,
                        outcomes.push(replace_outcome(next.container, next.result()->0)),
                        waiting,
                    );
                }
            },
            _ => {},
        }
    }
}

proof fn lemma_run_under_another_id(
    trace_id: Seq<char>,
    other: Seq<char>,
    image_ref: Seq<char>,
    events: Seq<EventView>,
)
    ensures
        DeploymentView::start(trace_id, image_ref).run(events).with_id(other)
            == DeploymentView::start(other, image_ref).run(events),
    decreases events.len(),
{
    if events.len() > 0 {
        lemma_run_under_another_id(trace_id, other, image_ref, events.drop_last());
        lemma_step_under_another_id(
            DeploymentView::start(trace_id, image_ref).run(events.drop_last()),
            events.last(),
            other,
        );
    }
}

/// Two requests for the same image that are let through, whatever tokens their configurations and
/// headers hold, lead to the same deployment apart from its id: after the same events the same is to
/// be done, the same is known of the containers, and the answer is the same but for the id.
pub proof fn law_nothing_depends_on_the_token(
    first: ConfigView,
    second: ConfigView,
    encoded: Seq<char>,
    first_header: Option<Seq<u8>>,
    second_header: Option<Seq<u8>>,
    first_id: Seq<char>,
    second_id: Seq<char>,
    events: Seq<EventView>,
)
    requires
        authorized_image(first, encoded, first_header) is Ok,
        authorized_image(second, encoded, second_header) is Ok,
    ensures
        authorized_image(first, encoded, first_header) == authorized_image(
            second,
            encoded,
            second_header,
        ),
        ({
            let image_ref = authorized_image(first, encoded, first_header)->Ok_0;
            let one = DeploymentView::start(first_id, image_ref).run(events);
            let two = DeploymentView::start(second_id, image_ref).run(events);
            &&& one.with_id(second_id) == two
            &&& one.action() == two.action()
            &&& one.matched() == two.matched()
            &&& one.outcomes() == two.outcomes()
            &&& one.current_name() == two.current_name()
            &&& one.result() is Some <==> two.result() is Some
            &&& one.result() is Some ==> match one.result()->0 {
                Ok(response) => two.result()->0 == Ok::<ResponseView, ErrorView>(
                    (ResponseView { trace_id: second_id, ..response }),
                ),
                Err(error) => two.result()->0 == Err::<ResponseView, ErrorView>(error),
            }
        }),
{
    let image_ref = authorized_image(first, encoded, first_header)->Ok_0;
    lemma_run_under_another_id(first_id, second_id, image_ref, events);
}

/// A deployment begins with the upload. A part of it can be counted exactly where the sum of all
/// parts fits into 64 bits; nothing else is ever refused for want of room.
pub proof fn law_only_the_count_can_overflow(
    trace_id: Seq<char>,
    image_ref: Seq<char>,
    events: Seq<EventView>,
    event: EventView,
)
    ensures
        DeploymentView::start(trace_id, image_ref).action() is Receive,
        DeploymentView::start(trace_id, image_ref).trace_id == trace_id,
        DeploymentView::start(trace_id, image_ref).image_ref == image_ref,
        !DeploymentView::start(trace_id, image_ref).run(events).has_room_for(event) <==> {
            &&& DeploymentView::start(trace_id, image_ref).run(events).action() is Receive
            &&& event is Received
            &&& upload_size(events.push(event)) > u64::MAX
        },
{
    lemma_run_is_reached(trace_id, image_ref, events);
    lemma_more_events(events, event);
}

/// Once the image is loaded and its file deleted, the engine is asked for all containers; where it
/// does not list them, the request is answered with the error of that.
pub proof fn law_containers_are_listed_next(state: DeploymentView, reply: ReplyView)
    requires
        state.stage is Loading,
    ensures
        ({
            let listing = state.step(EventView::Loaded(Ok(()))).step(EventView::Deleted);
            &&& listing.action() is Send
            &&& listing.action()->Send_0.method is Get
            &&& listing.action()->Send_0.path == "/containers/json?all=1"@
            &&& list_outcome(reply) is Err ==> listing.step(EventView::Replied(reply)).result()
                == Some(Err::<ResponseView, ErrorView>(list_outcome(reply)->Err_0))
            &&& list_outcome(reply) is Ok ==> (listing.step(EventView::Replied(reply)).result()
                is None || listing.step(EventView::Replied(reply)).result()->0 is Ok)
        }),
{
    let listing = state.step(EventView::Loaded(Ok(()))).step(EventView::Deleted);
    if list_outcome(reply) is Ok {
        lemma_inspection_is_moving(
            listing.step(EventView::Replied(reply)),
            state.stage->Loading_bytes_received,
            seq![],
            list_outcome(reply)->Ok_0,
        );
    }
}

/// The listed containers are inspected one after the other, in the order of the list, each under its
/// own id.
pub proof fn law_inspections_follow_the_list(
    trace_id: Seq<char>,
    image_ref: Seq<char>,
    events: Seq<EventView>,
)
    requires
        DeploymentView::start(trace_id, image_ref).run(events).stage is Inspecting,
    ensures
        ({
            let start = DeploymentView::start(trace_id, image_ref);
            let heard = start.heard(events);
            let action = start.run(events).action();
            &&& heard.len() > 0
            &&& list_outcome(heard[0]) is Ok
            &&& heard.len() - 1 < listed_in(heard).len()
            &&& action is Send
            &&& action->Send_0.method is Get
            &&& action->Send_0.path == "/containers/"@ + listed_in(
                heard,
            )[heard.len() - 1].summary.id + "/json"@
        }),
{
    lemma_run_is_reached(trace_id, image_ref, events);
}

/// While containers are replaced, what is known of them is how many are dealt with and the outcomes
/// of the first of them, in their order; the next request is that of the replacement under way. At
/// the end all outcomes are known, and they are those of the answer.
#[verifier::spinoff_prover]
#[verifier::rlimit(50)]
pub proof fn law_progress_is_told(
    trace_id: Seq<char>,
    image_ref: Seq<char>,
    events: Seq<EventView>,
    i: int,
)
    ensures
        ({
            let start = DeploymentView::start(trace_id, image_ref);
            let state = start.run(events);
            let dealt = dealt_with(start.heard(events), image_ref);
            &&& state.matched() is Some <==> state.outcomes() is Some
            &&& state.matched() is Some ==> {
                &&& state.matched()->0 == dealt.len()
                &&& state.outcomes()->0.len() <= dealt.len()
                &&& 0 <= i < state.outcomes()->0.len() ==> {
                    &&& state.outcomes()->0[i].container_id == dealt[i].summary.id
                    &&& state.outcomes()->0[i].container_name == dealt[i].summary.name
                }
            }
            &&& state.stage is Replacing ==> {
                let current = state.stage->Replacing_current;
                &&& state.matched() is Some
                &&& state.outcomes()->0.len() < dealt.len()
                &&& current.container == dealt[state.outcomes()->0.len() as int].summary
                &&& current.request() is Some
                &&& state.action() == ActionView::Send(current.request()->0)
                &&& state.current_name() == current.name()
            }
            &&& state.result() is Some && state.result()->0 is Ok ==> {
                &&& state.outcomes() == Some(state.result()->0->Ok_0.containers)
                &&& state.outcomes()->0.len() == dealt.len()
            }
            &&& state.stage !is Replacing ==> state.current_name() is None
        }),
{
    let start = DeploymentView::start(trace_id, image_ref);
    let heard = start.heard(events);
    let state = start.run(events);
    let dealt = dealt_with(heard, image_ref);
    lemma_run_is_reached(trace_id, image_ref, events);
    if state.stage is Replacing {
        let (runs, own) = choose|runs: Seq<Seq<ReplyView>>, own: Seq<ReplyView>| #[trigger]
            is_underway(state.stage, heard, image_ref, runs, own);
        let outcomes = state.stage->outcomes;
        let n = outcomes.len() as int;
        lemma_keeps_container(opened(dealt[n], image_ref), own);
        if 0 <= i < n {
            assert(is_outcome_of_run(outcomes[i], dealt.take(n)[i], image_ref, runs[i]));
        }
    } else if state.result() is Some && state.result()->0 is Ok {
        let response = state.result()->0->Ok_0;
        let runs = choose|runs: Seq<Seq<ReplyView>>| #[trigger]
            accounts_for(response.containers, heard, image_ref, runs);
        if 0 <= i < dealt.len() {
            assert(is_outcome_of_run(response.containers[i], dealt[i], image_ref, runs[i]));
        }
    }
}

} // verus!
