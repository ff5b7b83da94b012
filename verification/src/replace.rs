//! The replacement of one container by a new one, request by request.
//!
//! A [`Replacement`] says which request to send next and is moved on by the engine's reply to it,
//! until it is finished.

use vstd::prelude::*;
use vstd::utf8::encode_utf8;

use crate::engine::{
    build_create_payload, create_container, create_payload, create_request, empty_outcome,
    inspect_container, inspect_request, json_outcome, parse_empty_response, parse_json_response,
    remove_container, remove_request, rename_container, rename_request, start_container,
    start_request, stop_container, stop_request, ContainerSummary, EngineReply, EngineRequest,
    ReplyView, RequestView, SummaryView,
};
use crate::error::{outcome, AppError, ErrorView};
use crate::json::{json_text, Json, JsonView};
use crate::percent::percent_encoded;
use crate::text::{concat, law_leading_run_is_cut, trim_start_matches, without_leading};

verus! {

/// The replacement of a container by one that runs the given image.
pub struct Replacement {
    container: ContainerSummary,
    image_ref: String,
    stage: Stage,
}

/// How far a replacement has come: which request is due, and what is known for it.
enum Stage {
    /// The old container is to be inspected.
    Inspect,
    /// The new container is to be created. `name` is the name of the old one.
    Create { name: String, request: EngineRequest },
    /// The old container is to be stopped.
    Stop { name: String, new_id: String },
    /// The old container is to be removed.
    Remove { name: String, new_id: String },
    /// The new container is to get the name of the old one.
    Rename { name: String, new_id: String },
    /// The new container is to be started.
    Start { name: String, new_id: String },
    /// The old container could not be removed and is to be started again.
    RestartOld { new_id: String, error: AppError },
    /// The old container stays, and the new one is to be removed by force.
    DiscardNew { new_id: String, error: AppError },
    /// The new container could not be renamed and is to be started as it is.
    StartUnnamed { new_id: String, error: AppError },
    /// No request is due. The result is the id of the new container, or what went wrong.
    Finished { result: Result<String, AppError> },
}

/// What a replacement says.
pub struct ReplacementView {
    pub container: SummaryView,
    pub image_ref: Seq<char>,
    pub stage: StageView,
}

/// What a stage says.
pub enum StageView {
    Inspect,
    Create { name: Seq<char>, request: RequestView },
    Stop { name: Seq<char>, new_id: Seq<char> },
    Remove { name: Seq<char>, new_id: Seq<char> },
    Rename { name: Seq<char>, new_id: Seq<char> },
    Start { name: Seq<char>, new_id: Seq<char> },
    RestartOld { new_id: Seq<char>, error: ErrorView },
    DiscardNew { new_id: Seq<char>, error: ErrorView },
    StartUnnamed { new_id: Seq<char>, error: ErrorView },
    Finished { result: Result<Seq<char>, ErrorView> },
}

impl Stage {
    spec fn view(&self) -> StageView {
        match *self {
            Stage::Inspect => StageView::Inspect,
            Stage::Create { name, request } => StageView::Create { name: name@, request: request@ },
            Stage::Stop { name, new_id } => StageView::Stop { name: name@, new_id: new_id@ },
            Stage::Remove { name, new_id } => StageView::Remove { name: name@, new_id: new_id@ },
            Stage::Rename { name, new_id } => StageView::Rename { name: name@, new_id: new_id@ },
            Stage::Start { name, new_id } => StageView::Start { name: name@, new_id: new_id@ },
            Stage::RestartOld { new_id, error } => StageView::RestartOld {
                new_id: new_id@,
                error: error@,
            },
            Stage::DiscardNew { new_id, error } => StageView::DiscardNew {
                new_id: new_id@,
                error: error@,
            },
            Stage::StartUnnamed { new_id, error } => StageView::StartUnnamed {
                new_id: new_id@,
                error: error@,
            },
            Stage::Finished { result } => StageView::Finished { result: outcome(result) },
        }
    }
}

impl View for Replacement {
    type V = ReplacementView;

    closed spec fn view(&self) -> ReplacementView {
        ReplacementView {
            container: self.container@,
            image_ref: self.image_ref@,
            stage: self.stage.view(),
        }
    }
}

/// What the reply to a request tells a replacement.
pub enum ReplaceEvent {
    /// The document that the engine was asked for.
    Document(Result<Json, AppError>),
    /// Whether the engine did what it was asked.
    Acknowledged(Result<(), AppError>),
}

/// What an event says.
pub enum EventView {
    Document(Result<JsonView, ErrorView>),
    Acknowledged(Result<(), ErrorView>),
}

/// What a `Result` without a value says.
pub open spec fn acknowledgement(res: Result<(), AppError>) -> Result<(), ErrorView> {
    match res {
        Ok(_) => Ok(()),
        Err(err) => Err(err@),
    }
}

impl View for ReplaceEvent {
    type V = EventView;

    open spec fn view(&self) -> EventView {
        match *self {
            ReplaceEvent::Document(res) => EventView::Document(outcome(res)),
            ReplaceEvent::Acknowledged(res) => EventView::Acknowledged(acknowledgement(res)),
        }
    }
}

/// The name of an inspected container without the slashes before it; `fallback` where the
/// inspection gives none.
pub open spec fn inspected_name(inspect: JsonView, fallback: Seq<char>) -> Seq<char> {
    without_leading(
        match inspect.get_text("Name"@) {
            Some(name) => name,
            None => fallback,
        },
        '/',
    )
}

/// The name that the new container has until the old one is gone.
pub open spec fn temporary_name(name: Seq<char>) -> Seq<char> {
    name + "-replacement"@
}

/// The stage after the old container was inspected.
pub open spec fn after_inspect(
    container: SummaryView,
    image_ref: Seq<char>,
    inspected: Result<JsonView, ErrorView>,
) -> StageView {
    match inspected {
        Err(error) => StageView::Finished { result: Err(error) },
        Ok(inspect) => {
            let name = inspected_name(inspect, container.name);
            match create_payload(inspect, image_ref) {
                Err(error) => StageView::Finished { result: Err(error) },
                Ok(payload) => StageView::Create {
                    name,
                    request: create_request(temporary_name(name), payload),
                },
            }
        },
    }
}

/// The stage after the new container was created.
pub open spec fn after_create(name: Seq<char>, created: Result<JsonView, ErrorView>) -> StageView {
    match created {
        Err(error) => StageView::Finished { result: Err(error) },
        Ok(document) => match document.get_text("Id"@) {
            Some(new_id) => StageView::Stop { name, new_id },
            None => StageView::Finished {
                result: Err(ErrorView::ContainerReplace("create response missing container id"@)),
            },
        },
    }
}

/// The stage after the engine did, or refused, what a stage asked of it.
pub open spec fn after_acknowledged(stage: StageView, done: Result<(), ErrorView>) -> StageView {
    match stage {
        StageView::Stop { name, new_id } => match done {
            Ok(_) => StageView::Remove { name, new_id },
            Err(error) => StageView::DiscardNew { new_id, error },
        },
        StageView::Remove { name, new_id } => match done {
            Ok(_) => StageView::Rename { name, new_id },
            Err(error) => StageView::RestartOld { new_id, error },
        },
        StageView::Rename { name, new_id } => match done {
            Ok(_) => StageView::Start { name, new_id },
            Err(error) => StageView::StartUnnamed { new_id, error },
        },
        StageView::Start { name, new_id } => StageView::Finished {
            result: match done {
                Ok(_) => Ok(new_id),
                Err(error) => Err(error),
            },
        },
        StageView::RestartOld { new_id, error } => StageView::DiscardNew { new_id, error },
        StageView::DiscardNew { new_id, error } => StageView::Finished { result: Err(error) },
        StageView::StartUnnamed { new_id, error } => StageView::Finished { result: Err(error) },
        _ => stage,
    }
}

impl ReplacementView {
    /// The replacement before its first request.
    pub open spec fn start(container: SummaryView, image_ref: Seq<char>) -> ReplacementView {
        ReplacementView { container, image_ref, stage: StageView::Inspect }
    }

    /// The request that is due.
    pub open spec fn request(self) -> Option<RequestView> {
        match self.stage {
            StageView::Inspect => Some(inspect_request(self.container.id)),
            StageView::Create { name, request } => Some(request),
            StageView::Stop { name, new_id } => Some(stop_request(self.container.id)),
            StageView::Remove { name, new_id } => Some(remove_request(self.container.id, false)),
            StageView::Rename { name, new_id } => Some(rename_request(new_id, name)),
            StageView::Start { name, new_id } => Some(start_request(new_id)),
            StageView::RestartOld { new_id, error } => Some(start_request(self.container.id)),
            StageView::DiscardNew { new_id, error } => Some(remove_request(new_id, true)),
            StageView::StartUnnamed { new_id, error } => Some(start_request(new_id)),
            StageView::Finished { result } => None,
        }
    }

    /// The name of the old container, as its inspection gave it, while the new one is to take it
    /// over.
    pub open spec fn name(self) -> Option<Seq<char>> {
        match self.stage {
            StageView::Create { name, request } => Some(name),
            StageView::Stop { name, new_id } => Some(name),
            StageView::Remove { name, new_id } => Some(name),
            StageView::Rename { name, new_id } => Some(name),
            StageView::Start { name, new_id } => Some(name),
            _ => None,
        }
    }

    /// The result, where the replacement is finished.
    pub open spec fn result(self) -> Option<Result<Seq<char>, ErrorView>> {
        match self.stage {
            StageView::Finished { result } => Some(result),
            _ => None,
        }
    }

    /// What a reply tells: the first two stages read a document, the others an acknowledgement.
    pub open spec fn interpret(self, reply: ReplyView) -> EventView {
        match self.stage {
            StageView::Inspect | StageView::Create { .. } => EventView::Document(
                json_outcome(reply),
            ),
            _ => EventView::Acknowledged(empty_outcome(reply)),
        }
    }

    /// The replacement after an event. An event that the stage does not wait for changes nothing.
    pub open spec fn step(self, event: EventView) -> ReplacementView {
        let stage = match event {
            EventView::Document(document) => match self.stage {
                StageView::Inspect => after_inspect(self.container, self.image_ref, document),
                StageView::Create { name, request } => after_create(name, document),
                _ => self.stage,
            },
            EventView::Acknowledged(done) => after_acknowledged(self.stage, done),
        };
        ReplacementView { stage, ..self }
    }

    /// The replacement after the reply to the request that was due.
    pub open spec fn advance(self, reply: ReplyView) -> ReplacementView {
        self.step(self.interpret(reply))
    }
}

impl Replacement {
    /// The replacement of a container by one that runs the given image.
    pub fn start(container: ContainerSummary, image_ref: String) -> (res: Replacement)
        ensures
            res@ == ReplacementView::start(container@, image_ref@),
    {
        Replacement { container, image_ref, stage: Stage::Inspect }
    }

    /// The request that is due.
    pub fn request(&self) -> (res: Option<EngineRequest>)
        ensures
            res is Some <==> self@.request() is Some,
            res is Some ==> self@.request() == Some(res->0@),
    {
        match &self.stage {
            Stage::Inspect => Some(inspect_container(self.container.id.as_str())),
            Stage::Create { name, request } => Some(copy_request(request)),
            Stage::Stop { .. } => Some(stop_container(self.container.id.as_str())),
            Stage::Remove { .. } => Some(remove_container(self.container.id.as_str(), false)),
            Stage::Rename { name, new_id } => Some(
                rename_container(new_id.as_str(), name.as_str()),
            ),
            Stage::Start { new_id, .. } => Some(start_container(new_id.as_str())),
            Stage::RestartOld { .. } => Some(start_container(self.container.id.as_str())),
            Stage::DiscardNew { new_id, .. } => Some(remove_container(new_id.as_str(), true)),
            Stage::StartUnnamed { new_id, .. } => Some(start_container(new_id.as_str())),
            Stage::Finished { .. } => None,
        }
    }

    /// The name of the old container, as its inspection gave it, while the new one is to take it
    /// over.
    pub fn name(&self) -> (res: Option<&str>)
        ensures
            res is Some <==> self@.name() is Some,
            res is Some ==> self@.name() == Some(res->0@),
    {
        match &self.stage {
            Stage::Create { name, .. } => Some(name.as_str()),
            Stage::Stop { name, .. } => Some(name.as_str()),
            Stage::Remove { name, .. } => Some(name.as_str()),
            Stage::Rename { name, .. } => Some(name.as_str()),
            Stage::Start { name, .. } => Some(name.as_str()),
            _ => None,
        }
    }

    /// What a reply tells.
    pub fn interpret(&self, reply: &EngineReply) -> (res: ReplaceEvent)
        ensures
            res@ == self@.interpret(reply@),
    {
        match &self.stage {
            Stage::Inspect | Stage::Create { .. } => ReplaceEvent::Document(
                parse_json_response(reply),
            ),
            _ => ReplaceEvent::Acknowledged(parse_empty_response(reply)),
        }
    }

    /// The replacement after an event.
    pub fn step(self, event: ReplaceEvent) -> (res: Replacement)
        ensures
            res@ == self@.step(event@),
    {
        let Replacement { container, image_ref, stage } = self;
        let stage = match event {
            ReplaceEvent::Document(document) => match stage {
                Stage::Inspect => inspected(&container, image_ref.as_str(), document),
                Stage::Create { name, .. } => created(name, document),
                other => other,
            },
            ReplaceEvent::Acknowledged(done) => acknowledged(stage, done),
        };
        Replacement { container, image_ref, stage }
    }

    /// The replacement after the reply to the request that was due.
    pub fn advance(self, reply: &EngineReply) -> (res: Replacement)
        ensures
            res@ == self@.advance(reply@),
    {
        let event = self.interpret(reply);
        self.step(event)
    }

    /// The container and the result, where the replacement is finished; else the replacement.
    pub fn finish(self) -> (res: Result<
        (ContainerSummary, Result<String, AppError>),
        Replacement,
    >)
        ensures
            match res {
                Ok((container, result)) => {
                    &&& container@ == self@.container
                    &&& self@.result() == Some(outcome(result))
                },
                Err(same) => same@ == self@ && self@.result() is None,
            },
    {
        let Replacement { container, image_ref, stage } = self;
        match stage {
            Stage::Finished { result } => Ok((container, result)),
            other => Err(Replacement { container, image_ref, stage: other }),
        }
    }
}

fn copy_request(request: &EngineRequest) -> (res: EngineRequest)
    ensures
        res@ == request@,
{
    let mut body: Vec<u8> = Vec::new();
    body.extend_from_slice(request.body.as_slice());
    assert(body@ =~= request.body@);
    EngineRequest {
        method: request.method,
        path: request.path.clone(),
        content_type: match &request.content_type {
            Some(text) => Some(text.clone()),
            None => None,
        },
        body,
    }
}

/// The stage after the old container was inspected.
fn inspected(
    container: &ContainerSummary,
    image_ref: &str,
    document: Result<Json, AppError>,
) -> (res: Stage)
    ensures
        res.view() == after_inspect(container@, image_ref@, outcome(document)),
{
    let inspect = match document {
        Ok(inspect) => inspect,
        Err(error) => {
            return Stage::Finished { result: Err(error) };
        },
    };
    let given = match inspect.get_str("Name") {
        Some(name) => name,
        None => container.name.as_str(),
    };
    let name = trim_start_matches(given, '/');
    let payload = match build_create_payload(&inspect, image_ref) {
        Ok(payload) => payload,
        Err(error) => {
            return Stage::Finished { result: Err(error) };
        },
    };
    let temp_name = concat(name.as_str(), "-replacement");
    match create_container(temp_name.as_str(), &payload) {
        Ok(request) => Stage::Create { name, request },
        Err(error) => Stage::Finished { result: Err(error) },
    }
}

/// The stage after the new container was created.
fn created(name: String, document: Result<Json, AppError>) -> (res: Stage)
    ensures
        res.view() == after_create(name@, outcome(document)),
{
    let document = match document {
        Ok(document) => document,
        Err(error) => {
            return Stage::Finished { result: Err(error) };
        },
    };
    match document.get_str("Id") {
        Some(id) => Stage::Stop { name, new_id: id.to_owned() },
        None => Stage::Finished {
            result: Err(
                AppError::ContainerReplace("create response missing container id".to_owned()),
            ),
        },
    }
}

/// The stage after the engine did, or refused, what a stage asked of it.
fn acknowledged(stage: Stage, done: Result<(), AppError>) -> (res: Stage)
    ensures
        res.view() == after_acknowledged(stage.view(), acknowledgement(done)),
{
    match stage {
        Stage::Stop { name, new_id } => match done {
            Ok(_) => Stage::Remove { name, new_id },
            Err(error) => Stage::DiscardNew { new_id, error },
        },
        Stage::Remove { name, new_id } => match done {
            Ok(_) => Stage::Rename { name, new_id },
            Err(error) => Stage::RestartOld { new_id, error },
        },
        Stage::Rename { name, new_id } => match done {
            Ok(_) => Stage::Start { name, new_id },
            Err(error) => Stage::StartUnnamed { new_id, error },
        },
        Stage::Start { new_id, .. } => match done {
            Ok(_) => Stage::Finished { result: Ok(new_id) },
            Err(error) => Stage::Finished { result: Err(error) },
        },
        Stage::RestartOld { new_id, error } => Stage::DiscardNew { new_id, error },
        Stage::DiscardNew { error, .. } => Stage::Finished { result: Err(error) },
        Stage::StartUnnamed { error, .. } => Stage::Finished { result: Err(error) },
        other => other,
    }
}

// ---- What a whole replacement does ----

impl ReplacementView {
    /// The replacement after a number of replies.
    pub open spec fn run(self, replies: Seq<ReplyView>) -> ReplacementView
        decreases replies.len(),
    {
        if replies.len() == 0 {
            self
        } else {
            self.advance(replies.first()).run(replies.drop_first())
        }
    }

    /// The requests that are sent and answered by the given replies. Where the replacement is
    /// finished before, the rest of the replies is left over.
    pub open spec fn sent(self, replies: Seq<ReplyView>) -> Seq<RequestView>
        decreases replies.len(),
    {
        match self.request() {
            Some(request) => if replies.len() == 0 {
                seq![]
            } else {
                seq![request] + self.advance(replies.first()).sent(replies.drop_first())
            },
            None => seq![],
        }
    }

    /// How many requests the replacement can still send.
    pub open spec fn remaining(self) -> nat {
        match self.stage {
            StageView::Inspect => 6,
            StageView::Create { .. } => 5,
            StageView::Stop { .. } => 4,
            StageView::Remove { .. } => 3,
            StageView::Rename { .. } | StageView::RestartOld { .. } => 2,
            StageView::Start { .. }
            | StageView::DiscardNew { .. }
            | StageView::StartUnnamed { .. } => 1,
            StageView::Finished { .. } => 0,
        }
    }
}

proof fn lemma_finishes(state: ReplacementView, replies: Seq<ReplyView>)
    requires
        replies.len() >= state.remaining(),
    ensures
        state.run(replies).result() is Some,
        state.sent(replies).len() <= state.remaining(),
    decreases replies.len(),
{
    if replies.len() > 0 {
        lemma_finishes(state.advance(replies.first()), replies.drop_first());
    }
}

/// A replacement is finished after six replies at the latest, whatever they say.
pub proof fn law_finishes(container: SummaryView, image_ref: Seq<char>, replies: Seq<ReplyView>)
    requires
        replies.len() >= 6,
    ensures
        ReplacementView::start(container, image_ref).run(replies).result() is Some,
        ReplacementView::start(container, image_ref).sent(replies).len() <= 6,
{
    lemma_finishes(ReplacementView::start(container, image_ref), replies);
}

/// The first two replies bring the new container into being, under the given id: the old one was
/// inspected, a description could be made from it, and the engine named the id.
pub open spec fn is_created(
    image_ref: Seq<char>,
    replies: Seq<ReplyView>,
    new_id: Seq<char>,
) -> bool {
    &&& json_outcome(replies[0]) is Ok
    &&& create_payload(json_outcome(replies[0])->Ok_0, image_ref) is Ok
    &&& json_outcome(replies[1]) is Ok
    &&& json_outcome(replies[1])->Ok_0.get_text("Id"@) == Some(new_id)
}

/// The name of the old container, which the new one takes over.
pub open spec fn kept_name(container: SummaryView, replies: Seq<ReplyView>) -> Seq<char> {
    inspected_name(json_outcome(replies[0])->Ok_0, container.name)
}

/// The two requests that bring the new container into being.
pub open spec fn creating_requests(
    container: SummaryView,
    image_ref: Seq<char>,
    replies: Seq<ReplyView>,
) -> Seq<RequestView> {
    seq![
        inspect_request(container.id),
        create_request(
            temporary_name(kept_name(container, replies)),
            create_payload(json_outcome(replies[0])->Ok_0, image_ref)->Ok_0,
        ),
    ]
}

/// One reply moves a run on by one.
proof fn lemma_next(state: ReplacementView, replies: Seq<ReplyView>, k: int)
    requires
        0 <= k < replies.len(),
    ensures
        state.run(replies.skip(k)) == state.advance(replies[k]).run(replies.skip(k + 1)),
        state.request() is Some ==> state.sent(replies.skip(k)) == seq![state.request()->0]
            + state.advance(replies[k]).sent(replies.skip(k + 1)),
        state.request() is None ==> state.sent(replies.skip(k)) == Seq::<RequestView>::empty(),
{
    assert(replies.skip(k).drop_first() == replies.skip(k + 1));
    assert(replies.skip(k).first() == replies[k]);
}

/// A finished replacement stays as it is and sends nothing more.
pub(crate) proof fn lemma_stays_finished(state: ReplacementView, replies: Seq<ReplyView>)
    requires
        state.result() is Some,
    ensures
        state.run(replies) == state,
        state.sent(replies) == Seq::<RequestView>::empty(),
    decreases replies.len(),
{
    if replies.len() > 0 {
        assert(state.advance(replies.first()) == state);
        lemma_stays_finished(state, replies.drop_first());
    }
}

/// The stage after the new container was created.
spec fn stopping(
    container: SummaryView,
    image_ref: Seq<char>,
    replies: Seq<ReplyView>,
    new_id: Seq<char>,
) -> ReplacementView {
    ReplacementView {
        container,
        image_ref,
        stage: StageView::Stop { name: kept_name(container, replies), new_id },
    }
}

proof fn lemma_created(
    container: SummaryView,
    image_ref: Seq<char>,
    replies: Seq<ReplyView>,
    new_id: Seq<char>,
)
    requires
        replies.len() >= 2,
        is_created(image_ref, replies, new_id),
    ensures
        ReplacementView::start(container, image_ref).run(replies) == stopping(
            container,
            image_ref,
            replies,
            new_id,
        ).run(replies.skip(2)),
        ReplacementView::start(container, image_ref).sent(replies) == creating_requests(
            container,
            image_ref,
            replies,
        ) + stopping(container, image_ref, replies, new_id).sent(replies.skip(2)),
{
    let start = ReplacementView::start(container, image_ref);
    assert(replies.skip(0) == replies);
    lemma_next(start, replies, 0);
    let created = start.advance(replies[0]);
    lemma_next(created, replies, 1);
    assert(created.advance(replies[1]) == stopping(container, image_ref, replies, new_id));
    assert(start.sent(replies) =~= creating_requests(container, image_ref, replies) + stopping(
        container,
        image_ref,
        replies,
        new_id,
    ).sent(replies.skip(2)));
}

/// Where the engine does all that it is asked, a replacement inspects the old container, creates
/// the new one under a temporary name, stops and removes the old one, gives its name to the new
/// one and starts it, in this order and with no other request, and gives the id of the new one.
pub proof fn law_accepted_run(
    container: SummaryView,
    image_ref: Seq<char>,
    replies: Seq<ReplyView>,
    new_id: Seq<char>,
)
    requires
        replies.len() >= 6,
        is_created(image_ref, replies, new_id),
        forall|i: int| 2 <= i < 6 ==> empty_outcome(#[trigger] replies[i]) is Ok,
    ensures
        ReplacementView::start(container, image_ref).run(replies).result() == Some(
            Ok::<Seq<char>, ErrorView>(new_id),
        ),
        ReplacementView::start(container, image_ref).sent(replies) == creating_requests(
            container,
            image_ref,
            replies,
        ) + seq![
            stop_request(container.id),
            remove_request(container.id, false),
            rename_request(new_id, kept_name(container, replies)),
            start_request(new_id),
        ],
{
    lemma_created(container, image_ref, replies, new_id);
    let stop = stopping(container, image_ref, replies, new_id);
    lemma_next(stop, replies, 2);
    let remove = stop.advance(replies[2]);
    lemma_next(remove, replies, 3);
    let rename = remove.advance(replies[3]);
    lemma_next(rename, replies, 4);
    let start = rename.advance(replies[4]);
    lemma_next(start, replies, 5);
    let done = start.advance(replies[5]);
    lemma_stays_finished(done, replies.skip(6));
    assert(stop.sent(replies.skip(2)) =~= seq![
        stop_request(container.id),
        remove_request(container.id, false),
        rename_request(new_id, kept_name(container, replies)),
        start_request(new_id),
    ]);
}

/// Where no new container comes into being, nothing but the inspection and the attempt to create
/// it is asked of the engine, so the old container is left as it is, and the result is an error.
pub proof fn law_failed_creation_leaves_old(
    container: SummaryView,
    image_ref: Seq<char>,
    replies: Seq<ReplyView>,
)
    requires
        replies.len() >= 2,
        forall|new_id: Seq<char>| !#[trigger] is_created(image_ref, replies, new_id),
    ensures
        ReplacementView::start(container, image_ref).run(replies).result() is Some,
        ReplacementView::start(container, image_ref).run(replies).result()->0 is Err,
        ({
            let sent = ReplacementView::start(container, image_ref).sent(replies);
            ||| sent == seq![inspect_request(container.id)]
            ||| sent == creating_requests(container, image_ref, replies)
        }),
{
    let start = ReplacementView::start(container, image_ref);
    assert(replies.skip(0) == replies);
    lemma_next(start, replies, 0);
    let created = start.advance(replies[0]);
    if created.result() is Some {
        lemma_stays_finished(created, replies.skip(1));
        assert(start.sent(replies) =~= seq![inspect_request(container.id)]);
    } else {
        lemma_next(created, replies, 1);
        let after = created.advance(replies[1]);
        if json_outcome(replies[1]) is Ok {
            let id = json_outcome(replies[1])->Ok_0.get_text("Id"@);
            if id is Some {
                assert(is_created(image_ref, replies, id->0));
            }
        }
        lemma_stays_finished(after, replies.skip(2));
        assert(start.sent(replies) =~= creating_requests(container, image_ref, replies));
    }
}

/// Where the old container cannot be stopped, the new one is removed by force, whatever the engine
/// says to that, and the result is the error of the stop.
pub proof fn law_failed_stop_discards_new(
    container: SummaryView,
    image_ref: Seq<char>,
    replies: Seq<ReplyView>,
    new_id: Seq<char>,
)
    requires
        replies.len() >= 4,
        is_created(image_ref, replies, new_id),
        empty_outcome(replies[2]) is Err,
    ensures
        ReplacementView::start(container, image_ref).run(replies).result() == Some(
            Err::<Seq<char>, ErrorView>(empty_outcome(replies[2])->Err_0),
        ),
        ReplacementView::start(container, image_ref).sent(replies) == creating_requests(
            container,
            image_ref,
            replies,
        ) + seq![stop_request(container.id), remove_request(new_id, true)],
{
    lemma_created(container, image_ref, replies, new_id);
    let stop = stopping(container, image_ref, replies, new_id);
    lemma_next(stop, replies, 2);
    let discard = stop.advance(replies[2]);
    lemma_next(discard, replies, 3);
    lemma_stays_finished(discard.advance(replies[3]), replies.skip(4));
    assert(stop.sent(replies.skip(2)) =~= seq![
        stop_request(container.id),
        remove_request(new_id, true),
    ]);
}

/// Where the old container was stopped and cannot be removed, it is started again and the new one
/// is removed by force, whatever the engine says to these, and the result is the error of the
/// removal.
pub proof fn law_failed_remove_restores_old(
    container: SummaryView,
    image_ref: Seq<char>,
    replies: Seq<ReplyView>,
    new_id: Seq<char>,
)
    requires
        replies.len() >= 6,
        is_created(image_ref, replies, new_id),
        empty_outcome(replies[2]) is Ok,
        empty_outcome(replies[3]) is Err,
    ensures
        ReplacementView::start(container, image_ref).run(replies).result() == Some(
            Err::<Seq<char>, ErrorView>(empty_outcome(replies[3])->Err_0),
        ),
        ReplacementView::start(container, image_ref).sent(replies) == creating_requests(
            container,
            image_ref,
            replies,
        ) + seq![
            stop_request(container.id),
            remove_request(container.id, false),
            start_request(container.id),
            remove_request(new_id, true),
        ],
{
    lemma_created(container, image_ref, replies, new_id);
    let stop = stopping(container, image_ref, replies, new_id);
    lemma_next(stop, replies, 2);
    let remove = stop.advance(replies[2]);
    lemma_next(remove, replies, 3);
    let restart = remove.advance(replies[3]);
    lemma_next(restart, replies, 4);
    let discard = restart.advance(replies[4]);
    lemma_next(discard, replies, 5);
    lemma_stays_finished(discard.advance(replies[5]), replies.skip(6));
    assert(stop.sent(replies.skip(2)) =~= seq![
        stop_request(container.id),
        remove_request(container.id, false),
        start_request(container.id),
        remove_request(new_id, true),
    ]);
}

/// Where the old container is gone and the new one cannot get its name, the new one is started all
/// the same, whatever the engine says to that, and the result is the error of the renaming.
pub proof fn law_failed_rename_starts_new(
    container: SummaryView,
    image_ref: Seq<char>,
    replies: Seq<ReplyView>,
    new_id: Seq<char>,
)
    requires
        replies.len() >= 6,
        is_created(image_ref, replies, new_id),
        empty_outcome(replies[2]) is Ok,
        empty_outcome(replies[3]) is Ok,
        empty_outcome(replies[4]) is Err,
    ensures
        ReplacementView::start(container, image_ref).run(replies).result() == Some(
            Err::<Seq<char>, ErrorView>(empty_outcome(replies[4])->Err_0),
        ),
        ReplacementView::start(container, image_ref).sent(replies) == creating_requests(
            container,
            image_ref,
            replies,
        ) + seq![
            stop_request(container.id),
            remove_request(container.id, false),
            rename_request(new_id, kept_name(container, replies)),
            start_request(new_id),
        ],
{
    lemma_created(container, image_ref, replies, new_id);
    let stop = stopping(container, image_ref, replies, new_id);
    lemma_next(stop, replies, 2);
    let remove = stop.advance(replies[2]);
    lemma_next(remove, replies, 3);
    let rename = remove.advance(replies[3]);
    lemma_next(rename, replies, 4);
    let unnamed = rename.advance(replies[4]);
    lemma_next(unnamed, replies, 5);
    lemma_stays_finished(unnamed.advance(replies[5]), replies.skip(6));
    assert(stop.sent(replies.skip(2)) =~= seq![
        stop_request(container.id),
        remove_request(container.id, false),
        rename_request(new_id, kept_name(container, replies)),
        start_request(new_id),
    ]);
}

/// A replacement succeeds exactly where the engine does all that it is asked, and the id that it
/// then gives is the one that the engine named.
pub proof fn law_succeeds_exactly(
    container: SummaryView,
    image_ref: Seq<char>,
    replies: Seq<ReplyView>,
    new_id: Seq<char>,
)
    requires
        replies.len() >= 6,
    ensures
        ReplacementView::start(container, image_ref).run(replies).result() == Some(
            Ok::<Seq<char>, ErrorView>(new_id),
        ) <==> {
            &&& is_created(image_ref, replies, new_id)
            &&& forall|i: int| 2 <= i < 6 ==> empty_outcome(#[trigger] replies[i]) is Ok
        },
{
    if exists|id: Seq<char>| is_created(image_ref, replies, id) {
        let id = choose|id: Seq<char>| is_created(image_ref, replies, id);
        assert(is_created(image_ref, replies, new_id) <==> id == new_id);
        if empty_outcome(replies[2]) is Err {
            law_failed_stop_discards_new(container, image_ref, replies, id);
        } else if empty_outcome(replies[3]) is Err {
            law_failed_remove_restores_old(container, image_ref, replies, id);
        } else if empty_outcome(replies[4]) is Err {
            law_failed_rename_starts_new(container, image_ref, replies, id);
        } else if empty_outcome(replies[5]) is Err {
            law_failed_start_is_reported(container, image_ref, replies, id);
        } else {
            law_accepted_run(container, image_ref, replies, id);
        }
    } else {
        law_failed_creation_leaves_old(container, image_ref, replies);
    }
}

/// Where all is done but the new container cannot be started, the result is the error of the
/// start, and nothing more is asked of the engine.
pub proof fn law_failed_start_is_reported(
    container: SummaryView,
    image_ref: Seq<char>,
    replies: Seq<ReplyView>,
    new_id: Seq<char>,
)
    requires
        replies.len() >= 6,
        is_created(image_ref, replies, new_id),
        empty_outcome(replies[2]) is Ok,
        empty_outcome(replies[3]) is Ok,
        empty_outcome(replies[4]) is Ok,
        empty_outcome(replies[5]) is Err,
    ensures
        ReplacementView::start(container, image_ref).run(replies).result() == Some(
            Err::<Seq<char>, ErrorView>(empty_outcome(replies[5])->Err_0),
        ),
        ReplacementView::start(container, image_ref).sent(replies) == creating_requests(
            container,
            image_ref,
            replies,
        ) + seq![
            stop_request(container.id),
            remove_request(container.id, false),
            rename_request(new_id, kept_name(container, replies)),
            start_request(new_id),
        ],
{
    lemma_created(container, image_ref, replies, new_id);
    let stop = stopping(container, image_ref, replies, new_id);
    lemma_next(stop, replies, 2);
    let remove = stop.advance(replies[2]);
    lemma_next(remove, replies, 3);
    let rename = remove.advance(replies[3]);
    lemma_next(rename, replies, 4);
    let start = rename.advance(replies[4]);
    lemma_next(start, replies, 5);
    lemma_stays_finished(start.advance(replies[5]), replies.skip(6));
    assert(stop.sent(replies.skip(2)) =~= seq![
        stop_request(container.id),
        remove_request(container.id, false),
        rename_request(new_id, kept_name(container, replies)),
        start_request(new_id),
    ]);
}

/// A request to remove a container by force is not one to remove a container without.
proof fn lemma_force_differs(first: Seq<char>, second: Seq<char>)
    ensures
        remove_request(first, false) != remove_request(second, true),
{
    reveal_strlit("0");
    reveal_strlit("1");
    let a = remove_request(first, false).path;
    let b = remove_request(second, true).path;
    assert(a.last() == '0');
    assert(b.last() == '1');
}

/// More replies add to what is sent and change nothing of it.
proof fn lemma_sent_extends(
    state: ReplacementView,
    replies: Seq<ReplyView>,
    more: Seq<ReplyView>,
)
    ensures
        state.sent(replies).len() <= replies.len(),
        state.sent(replies).len() <= state.sent(replies + more).len(),
        forall|i: int|
            0 <= i < state.sent(replies).len() ==> #[trigger] state.sent(replies)[i] == state.sent(
                replies + more,
            )[i],
    decreases replies.len(),
{
    if replies.len() > 0 {
        let next = state.advance(replies.first());
        lemma_sent_extends(next, replies.drop_first(), more);
        assert((replies + more).drop_first() =~= replies.drop_first() + more);
        assert((replies + more).first() == replies.first());
        if state.request() is Some {
            assert forall|i: int| 0 <= i < state.sent(replies).len() implies #[trigger] state.sent(
                replies,
            )[i] == state.sent(replies + more)[i] by {
                if i > 0 {
                    assert(next.sent(replies.drop_first())[i - 1] == next.sent(
                        replies.drop_first() + more,
                    )[i - 1]);
                }
            }
        }
    }
}

/// One more reply moves a run on by one, and answers one more request where one was due.
pub(crate) proof fn lemma_one_more_reply(
    state: ReplacementView,
    replies: Seq<ReplyView>,
    reply: ReplyView,
)
    ensures
        state.run(replies.push(reply)) == state.run(replies).advance(reply),
        state.sent(replies.push(reply)) == state.sent(replies) + (match state.run(
            replies,
        ).request() {
            Some(request) => seq![request],
            None => seq![],
        }),
    decreases replies.len(),
{
    reveal_with_fuel(ReplacementView::run, 2);
    reveal_with_fuel(ReplacementView::sent, 2);
    let more = replies.push(reply);
    if replies.len() > 0 {
        assert(more.drop_first() =~= replies.drop_first().push(reply));
        assert(more.first() == replies.first());
        lemma_one_more_reply(state.advance(replies.first()), replies.drop_first(), reply);
        if state.request() is None {
            lemma_stays_finished(state, replies);
        }
    } else {
        assert(more.drop_first() =~= seq![]);
        assert(more.first() == reply);
    }
}

/// Whatever the engine replies, and wherever the replies end: the old container is removed at most
/// once, as the fourth request, and only after the new one was created and the old one was stopped.
pub proof fn law_old_is_removed_only_when_ready(
    container: SummaryView,
    image_ref: Seq<char>,
    replies: Seq<ReplyView>,
    k: int,
)
    requires
        0 <= k < ReplacementView::start(container, image_ref).sent(replies).len(),
        ReplacementView::start(container, image_ref).sent(replies)[k] == remove_request(
            container.id,
            false,
        ),
    ensures
        k == 3,
        replies.len() > 3,
        exists|new_id: Seq<char>| is_created(image_ref, replies, new_id),
        empty_outcome(replies[2]) is Ok,
{
    let pad = Seq::new(6, |i: int| ReplyView::Failed(seq![]));
    let all = replies + pad;
    lemma_sent_extends(ReplacementView::start(container, image_ref), replies, pad);
    if exists|id: Seq<char>| is_created(image_ref, all, id) {
        let id = choose|id: Seq<char>| is_created(image_ref, all, id);
        lemma_force_differs(container.id, id);
        if empty_outcome(all[2]) is Err {
            law_failed_stop_discards_new(container, image_ref, all, id);
        } else if empty_outcome(all[3]) is Err {
            law_failed_remove_restores_old(container, image_ref, all, id);
        } else if empty_outcome(all[4]) is Err {
            law_failed_rename_starts_new(container, image_ref, all, id);
        } else if empty_outcome(all[5]) is Err {
            law_failed_start_is_reported(container, image_ref, all, id);
        } else {
            law_accepted_run(container, image_ref, all, id);
        }
        assert(is_created(image_ref, replies, id));
    } else {
        law_failed_creation_leaves_old(container, image_ref, all);
    }
}

/// The error that a stage carries, if any, is one of the engine or of the replacement.
spec fn carries_gateway_error(stage: StageView) -> bool {
    match stage {
        StageView::RestartOld { new_id, error } => error.status() == 502,
        StageView::DiscardNew { new_id, error } => error.status() == 502,
        StageView::StartUnnamed { new_id, error } => error.status() == 502,
        StageView::Finished { result } => result is Err ==> result->Err_0.status() == 502,
        _ => true,
    }
}

proof fn lemma_gateway_error(state: ReplacementView, replies: Seq<ReplyView>)
    requires
        carries_gateway_error(state.stage),
    ensures
        carries_gateway_error(state.run(replies).stage),
    decreases replies.len(),
{
    if replies.len() > 0 {
        lemma_gateway_error(state.advance(replies.first()), replies.drop_first());
    }
}

/// Whatever keeps a container from being replaced is an error with the status 502.
pub proof fn law_failures_are_bad_gateway(
    container: SummaryView,
    image_ref: Seq<char>,
    replies: Seq<ReplyView>,
    error: ErrorView,
)
    requires
        ReplacementView::start(container, image_ref).run(replies).result() == Some(
            Err::<Seq<char>, ErrorView>(error),
        ),
    ensures
        error.status() == 502,
{
    lemma_gateway_error(ReplacementView::start(container, image_ref), replies);
}

/// The text is the name behind slashes, where the inspection gives one, and otherwise the listed
/// name is.
pub open spec fn is_named(
    container: SummaryView,
    inspect: JsonView,
    slashes: Seq<char>,
    name: Seq<char>,
) -> bool {
    &&& forall|i: int| 0 <= i < slashes.len() ==> #[trigger] slashes[i] == '/'
    &&& name.len() > 0 ==> name[0] != '/'
    &&& match inspect.get("Name"@) {
        Some(JsonView::Text(given)) => given == slashes + name,
        _ => container.name == slashes + name,
    }
}

proof fn lemma_named(
    container: SummaryView,
    inspect: JsonView,
    slashes: Seq<char>,
    name: Seq<char>,
)
    requires
        is_named(container, inspect, slashes, name),
    ensures
        inspected_name(inspect, container.name) == name,
{
    law_leading_run_is_cut(slashes, name, '/');
}

/// The old container is inspected under its id. Where the inspection gives a configuration, whatever
/// its other members are, the new container is created next, with the description made from the
/// inspection, under the name of the old one with `-replacement` behind it. The slashes before the
/// name do not count.
pub proof fn law_new_container_is_created_beside(
    container: SummaryView,
    image_ref: Seq<char>,
    replies: Seq<ReplyView>,
    inspect: JsonView,
    slashes: Seq<char>,
    name: Seq<char>,
)
    requires
        replies.len() >= 2,
        json_outcome(replies[0]) == Ok::<JsonView, ErrorView>(inspect),
        inspect.get("Config"@) is Some,
        inspect.get("Config"@)->0 is Object,
        is_named(container, inspect, slashes, name),
    ensures
        ({
            let sent = ReplacementView::start(container, image_ref).sent(replies);
            &&& sent.len() >= 2
            &&& sent[0].method is Get
            &&& sent[0].path == "/containers/"@ + container.id + "/json"@
            &&& sent[1].method is Post
            &&& sent[1].path == "/containers/create?name="@ + percent_encoded(
                encode_utf8(name + "-replacement"@),
            )
            &&& create_payload(inspect, image_ref) is Ok
            &&& sent[1].body == encode_utf8(json_text(create_payload(inspect, image_ref)->Ok_0))
        }),
        ReplacementView::start(container, image_ref).run(replies.take(1)).name() == Some(name),
{
    let start = ReplacementView::start(container, image_ref);
    lemma_named(container, inspect, slashes, name);
    assert(replies.skip(0) =~= replies);
    lemma_next(start, replies, 0);
    let created = start.advance(replies[0]);
    lemma_next(created, replies, 1);
    reveal_with_fuel(ReplacementView::run, 2);
    assert(replies.take(1).first() == replies[0]);
    assert(replies.take(1).drop_first() =~= seq![]);
}

/// Where the engine does what it is asked, the old container is stopped and removed under its own
/// id, and then the new one, under the id that the engine gave it, gets exactly the name of the old
/// one and is started.
pub proof fn law_new_container_takes_the_name(
    container: SummaryView,
    image_ref: Seq<char>,
    replies: Seq<ReplyView>,
    inspect: JsonView,
    slashes: Seq<char>,
    name: Seq<char>,
    created: JsonView,
    new_id: Seq<char>,
)
    requires
        replies.len() >= 6,
        json_outcome(replies[0]) == Ok::<JsonView, ErrorView>(inspect),
        inspect.get("Config"@) is Some,
        inspect.get("Config"@)->0 is Object,
        is_named(container, inspect, slashes, name),
        json_outcome(replies[1]) == Ok::<JsonView, ErrorView>(created),
        created.get("Id"@) == Some(JsonView::Text(new_id)),
        empty_outcome(replies[2]) is Ok,
        empty_outcome(replies[3]) is Ok,
        empty_outcome(replies[4]) is Ok,
    ensures
        ({
            let start = ReplacementView::start(container, image_ref);
            let sent = start.sent(replies);
            &&& sent.len() == 6
            &&& sent[2].method is Post
            &&& sent[2].path == "/containers/"@ + container.id + "/stop?t=10"@
            &&& sent[3].method is Delete
            &&& sent[3].path == "/containers/"@ + container.id + "?force="@ + "0"@
            &&& sent[4].method is Post
            &&& sent[4].path == "/containers/"@ + new_id + "/rename?name="@ + percent_encoded(
                encode_utf8(name),
            )
            &&& sent[5].method is Post
            &&& sent[5].path == "/containers/"@ + new_id + "/start"@
            &&& start.run(replies.take(5)).name() == Some(name)
            &&& empty_outcome(replies[5]) is Ok ==> start.run(replies).result() == Some(
                Ok::<Seq<char>, ErrorView>(new_id),
            )
            &&& empty_outcome(replies[5]) is Err ==> start.run(replies).result() == Some(
                Err::<Seq<char>, ErrorView>(empty_outcome(replies[5])->Err_0),
            )
        }),
{
    lemma_named(container, inspect, slashes, name);
    assert(is_created(image_ref, replies, new_id));
    if empty_outcome(replies[5]) is Ok {
        law_accepted_run(container, image_ref, replies, new_id);
    } else {
        law_failed_start_is_reported(container, image_ref, replies, new_id);
    }
    let five = replies.take(5);
    lemma_created(container, image_ref, five, new_id);
    let stop = stopping(container, image_ref, five, new_id);
    lemma_next(stop, five, 2);
    let remove = stop.advance(five[2]);
    lemma_next(remove, five, 3);
    let rename = remove.advance(five[3]);
    lemma_next(rename, five, 4);
    assert(five.skip(5) =~= seq![]);
}

/// Where the old container cannot be inspected or described, or the new one cannot be created, the
/// result is the error of that; where the engine does not give the new one an id, it is that this
/// is missing.
pub proof fn law_early_failures_are_reported(
    container: SummaryView,
    image_ref: Seq<char>,
    replies: Seq<ReplyView>,
)
    requires
        replies.len() >= 2,
    ensures
        ({
            let result = ReplacementView::start(container, image_ref).run(replies).result();
            let inspect = json_outcome(replies[0]);
            let created = json_outcome(replies[1]);
            let payload = create_payload(inspect->Ok_0, image_ref);
            &&& inspect is Err ==> result == Some(
                Err::<Seq<char>, ErrorView>(inspect->Err_0),
            )
            &&& inspect is Ok && payload is Err ==> result == Some(
                Err::<Seq<char>, ErrorView>(payload->Err_0),
            )
            &&& inspect is Ok && payload is Ok && created is Err ==> result == Some(
                Err::<Seq<char>, ErrorView>(created->Err_0),
            )
            &&& inspect is Ok && payload is Ok && created is Ok && created->Ok_0.get_text("Id"@)
                is None ==> result == Some(
                Err::<Seq<char>, ErrorView>(
                    ErrorView::ContainerReplace("create response missing container id"@),
                ),
            )
        }),
{
    let start = ReplacementView::start(container, image_ref);
    assert(replies.skip(0) =~= replies);
    lemma_next(start, replies, 0);
    let one = start.advance(replies[0]);
    lemma_next(one, replies, 1);
    let two = one.advance(replies[1]);
    if one.result() is Some {
        lemma_stays_finished(one, replies.skip(1));
    } else if two.result() is Some {
        lemma_stays_finished(two, replies.skip(2));
    }
}

/// An event that a replacement does not wait for changes nothing: a document after the creation, an
/// acknowledgement before it, and anything after the end.
pub proof fn law_unawaited_event_changes_nothing(state: ReplacementView, event: EventView)
    requires
        match state.stage {
            StageView::Inspect | StageView::Create { .. } => event is Acknowledged,
            StageView::Finished { .. } => true,
            _ => event is Document,
        },
    ensures
        state.step(event) == state,
{
}

/// What an event says is what it carries.
pub proof fn law_event_says_what_it_carries(
    document: Json,
    error: AppError,
    done: Result<(), AppError>,
)
    ensures
        ReplaceEvent::Document(Ok(document))@ == EventView::Document(Ok(document@)),
        ReplaceEvent::Document(Err(error))@ == EventView::Document(Err(error@)),
        ReplaceEvent::Acknowledged(done)@ is Acknowledged,
        done is Ok <==> ReplaceEvent::Acknowledged(done)@->Acknowledged_0 is Ok,
        done is Err ==> ReplaceEvent::Acknowledged(done)@ == EventView::Acknowledged(
            Err(done->Err_0@),
        ),
{
}

} // verus!
