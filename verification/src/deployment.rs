//! A deployment, step by step: from the upload of an image to the answer.
//!
//! A [`Deployment`] says what is to be done next and is moved on by what came of it, until the
//! request can be answered.

use vstd::prelude::*;

use crate::config::AppConfig;
use crate::engine::{
    containers_by_image, inspect_container, inspect_request, inspected_views, json_outcome,
    list_containers, list_outcome, list_request, listed_views, outcome_views, parse_json_response,
    replace_outcome, ContainerReplaceOutcome, EngineClient, EngineReply, EngineRequest,
    InspectedContainer, InspectedView, ListedContainer, ListedView, OutcomeView, ReplyView,
    RequestView,
};
use crate::error::{outcome, AppError, ErrorView};
use crate::replace::{acknowledgement, ReplaceEvent, Replacement, ReplacementView};
use crate::server::{
    authorize, authorized_image, header_bytes, summed_up, DeployResponse, ResponseView,
};
use crate::text::concat;

verus! {

/// The text is that of a random UUID: groups of 8, 4, 4, 4 and 12 lower-case hexadecimal digits with
/// a `-` between them, with the digits of version 4 and of its variant in their places.
pub open spec fn is_random_uuid(text: Seq<char>) -> bool {
    &&& text.len() == 36
    &&& forall|i: int|
        0 <= i < 36 ==> if i == 8 || i == 13 || i == 18 || i == 23 {
            #[trigger] text[i] == '-'
        } else {
            '0' <= text[i] <= '9' || 'a' <= text[i] <= 'f'
        }
    &&& text[14] == '4'
    &&& text[19] == '8' || text[19] == '9' || text[19] == 'a' || text[19] == 'b'
}

/// `uuid::Uuid::new_v4` makes a UUID from random bytes of the operating system, and its `Display`
/// writes the hyphenated form. Which one it is, is left to chance; where the operating system has
/// no random bytes to give, the call panics.
#[verifier::external_body]
fn new_uuid() -> (res: String)
    ensures
        is_random_uuid(res@),
{
    uuid::Uuid::new_v4().to_string()
}

/// The name of the file for the upload with the given id.
pub open spec fn upload_name(id: Seq<char>) -> Seq<char> {
    "upload-"@ + id + ".tar"@
}

/// The name of the file for the upload with the given id.
pub fn upload_file_name(id: &str) -> (res: String)
    ensures
        res@ == upload_name(id@),
{
    concat(concat("upload-", id).as_str(), ".tar")
}

/// The name of the file for a new upload.
pub fn new_upload_file_name() -> (res: String)
    ensures
        exists|id: Seq<char>| is_random_uuid(id) && res@ == #[trigger] upload_name(id),
{
    let id = new_uuid();
    upload_file_name(id.as_str())
}

/// The deployment of an image.
pub struct Deployment {
    trace_id: String,
    image_ref: String,
    stage: Stage,
}

/// How far a deployment has come.
enum Stage {
    /// The image is being received.
    Receiving { bytes_received: u64 },
    /// The image is to be loaded into the engine.
    Loading { bytes_received: u64 },
    /// The uploaded file is to be deleted, whether or not the image was loaded.
    Deleting { bytes_received: u64, loaded: Result<(), AppError> },
    /// The containers are to be listed.
    Listing { bytes_received: u64 },
    /// The listed containers are being inspected, one after the other. `current` is the next one,
    /// behind those that were `inspected`, and those that are `waiting` follow it.
    Inspecting {
        bytes_received: u64,
        inspected: Vec<InspectedContainer>,
        current: ListedContainer,
        waiting: Vec<ListedContainer>,
    },
    /// The containers are being replaced, one after the other, `matched` in all. `current` is the
    /// replacement of the container behind those that `outcomes` tells of, and those that are
    /// `waiting` follow it.
    Replacing {
        bytes_received: u64,
        matched: usize,
        outcomes: Vec<ContainerReplaceOutcome>,
        current: Replacement,
        waiting: Vec<InspectedContainer>,
    },
    /// The request can be answered.
    Finished { result: Result<DeployResponse, AppError> },
}

/// What a deployment says.
pub struct DeploymentView {
    pub trace_id: Seq<char>,
    pub image_ref: Seq<char>,
    pub stage: StageView,
}

/// What a stage says.
pub enum StageView {
    Receiving { bytes_received: int },
    Loading { bytes_received: int },
    Deleting { bytes_received: int, loaded: Result<(), ErrorView> },
    Listing { bytes_received: int },
    Inspecting {
        bytes_received: int,
        inspected: Seq<InspectedView>,
        current: ListedView,
        waiting: Seq<ListedView>,
    },
    Replacing {
        bytes_received: int,
        matched: int,
        outcomes: Seq<OutcomeView>,
        current: ReplacementView,
        waiting: Seq<InspectedView>,
    },
    Finished { result: Result<ResponseView, ErrorView> },
}

impl Stage {
    spec fn view(&self) -> StageView {
        match *self {
            Stage::Receiving { bytes_received } => StageView::Receiving {
                bytes_received: bytes_received as int,
            },
            Stage::Loading { bytes_received } => StageView::Loading {
                bytes_received: bytes_received as int,
            },
            Stage::Deleting { bytes_received, loaded } => StageView::Deleting {
                bytes_received: bytes_received as int,
                loaded: acknowledgement(loaded),
            },
            Stage::Listing { bytes_received } => StageView::Listing {
                bytes_received: bytes_received as int,
            },
            Stage::Inspecting { bytes_received, inspected, current, waiting } => {
                StageView::Inspecting {
                    bytes_received: bytes_received as int,
                    inspected: inspected_views(inspected@),
                    current: current@,
                    waiting: listed_views(waiting@),
                }
            },
            Stage::Replacing { bytes_received, matched, outcomes, current, waiting } => {
                StageView::Replacing {
                    bytes_received: bytes_received as int,
                    matched: matched as int,
                    outcomes: outcome_views(outcomes@),
                    current: current@,
                    waiting: inspected_views(waiting@),
                }
            },
            Stage::Finished { result } => StageView::Finished { result: outcome(result) },
        }
    }
}

impl View for Deployment {
    type V = DeploymentView;

    closed spec fn view(&self) -> DeploymentView {
        DeploymentView {
            trace_id: self.trace_id@,
            image_ref: self.image_ref@,
            stage: self.stage.view(),
        }
    }
}

/// What is to be done next.
#[derive(Debug, PartialEq)]
pub enum Action {
    /// Receive the next part of the image and write it to the file.
    Receive,
    /// Have the engine load the file, which holds the given number of bytes.
    Load(u64),
    /// Delete the file.
    Delete,
    /// Send a request to the engine.
    Send(EngineRequest),
    /// Answer the request.
    Answer,
}

/// What an action says.
pub enum ActionView {
    Receive,
    Load(int),
    Delete,
    Send(RequestView),
    Answer,
}

impl View for Action {
    type V = ActionView;

    open spec fn view(&self) -> ActionView {
        match *self {
            Action::Receive => ActionView::Receive,
            Action::Load(bytes_received) => ActionView::Load(bytes_received as int),
            Action::Delete => ActionView::Delete,
            Action::Send(request) => ActionView::Send(request@),
            Action::Answer => ActionView::Answer,
        }
    }
}

/// What came of an action.
#[derive(Debug, PartialEq)]
pub enum Event {
    /// A part of the image with the given number of bytes was received and written.
    Received(usize),
    /// The image ended, and the file is complete.
    Ended,
    /// The next part of the image could not be received.
    Broken,
    /// The file could not be written, for the given reason.
    Unwritten(String),
    /// The engine loaded the image, or did not.
    Loaded(Result<(), AppError>),
    /// The file was deleted, or could not be.
    Deleted,
    /// The engine replied.
    Replied(EngineReply),
}

/// What an event says.
pub enum EventView {
    Received(int),
    Ended,
    Broken,
    Unwritten(Seq<char>),
    Loaded(Result<(), ErrorView>),
    Deleted,
    Replied(ReplyView),
}

impl View for Event {
    type V = EventView;

    open spec fn view(&self) -> EventView {
        match *self {
            Event::Received(size) => EventView::Received(size as int),
            Event::Ended => EventView::Ended,
            Event::Broken => EventView::Broken,
            Event::Unwritten(text) => EventView::Unwritten(text@),
            Event::Loaded(res) => EventView::Loaded(acknowledgement(res)),
            Event::Deleted => EventView::Deleted,
            Event::Replied(reply) => EventView::Replied(reply@),
        }
    }
}

/// The replacement of a container that was inspected.
pub open spec fn opened(container: InspectedView, image_ref: Seq<char>) -> ReplacementView {
    ReplacementView::start(container.summary, image_ref).step(
        crate::replace::EventView::Document(container.inspect),
    )
}

/// The stage where the given outcomes are known and the given containers follow: the replacement of
/// the first of them that does not fail at once, or, where there is none, the answer.
pub open spec fn next_container(
    trace_id: Seq<char>,
    image_ref: Seq<char>,
    bytes_received: int,
    matched: int,
    outcomes: Seq<OutcomeView>,
    waiting: Seq<InspectedView>,
) -> StageView
    decreases waiting.len(),
{
    if waiting.len() == 0 {
        StageView::Finished {
            result: Ok(summed_up(trace_id, image_ref, bytes_received, outcomes)),
        }
    } else {
        let current = opened(waiting[0], image_ref);
        match current.result() {
            Some(replaced) => next_container(
                trace_id,
                image_ref,
                bytes_received,
                matched,
                outcomes.push(replace_outcome(waiting[0].summary, replaced)),
                waiting.drop_first(),
            ),
            None => StageView::Replacing {
                bytes_received,
                matched,
                outcomes,
                current,
                waiting: waiting.drop_first(),
            },
        }
    }
}

/// The stage where some containers were inspected and others follow: the inspection of the next
/// one, or, where there is none, the replacement of those that are to be dealt with.
pub open spec fn next_inspection(
    trace_id: Seq<char>,
    image_ref: Seq<char>,
    bytes_received: int,
    inspected: Seq<InspectedView>,
    waiting: Seq<ListedView>,
) -> StageView {
    if waiting.len() > 0 {
        StageView::Inspecting {
            bytes_received,
            inspected,
            current: waiting[0],
            waiting: waiting.drop_first(),
        }
    } else {
        let containers = containers_by_image(inspected, image_ref);
        next_container(
            trace_id,
            image_ref,
            bytes_received,
            containers.len() as int,
            seq![],
            containers,
        )
    }
}

impl DeploymentView {
    /// The deployment before anything was received.
    pub open spec fn start(trace_id: Seq<char>, image_ref: Seq<char>) -> DeploymentView {
        DeploymentView { trace_id, image_ref, stage: StageView::Receiving { bytes_received: 0 } }
    }

    /// What is to be done next.
    pub open spec fn action(self) -> ActionView {
        match self.stage {
            StageView::Receiving { .. } => ActionView::Receive,
            StageView::Loading { bytes_received } => ActionView::Load(bytes_received),
            StageView::Deleting { .. } => ActionView::Delete,
            StageView::Listing { .. } => ActionView::Send(list_request()),
            StageView::Inspecting { bytes_received, inspected, current, waiting } => {
                ActionView::Send(inspect_request(current.summary.id))
            },
            StageView::Replacing { bytes_received, matched, outcomes, current, waiting } => {
                match current.request() {
                    Some(request) => ActionView::Send(request),
                    None => ActionView::Answer,
                }
            },
            StageView::Finished { .. } => ActionView::Answer,
        }
    }

    /// The result, where the request can be answered.
    pub open spec fn result(self) -> Option<Result<ResponseView, ErrorView>> {
        match self.stage {
            StageView::Finished { result } => Some(result),
            _ => None,
        }
    }

    /// How many containers are dealt with, where that is known.
    pub open spec fn matched(self) -> Option<int> {
        match self.stage {
            StageView::Replacing { bytes_received, matched, outcomes, current, waiting } => Some(
                matched,
            ),
            StageView::Finished { result: Ok(response) } => Some(response.containers.len() as int),
            _ => None,
        }
    }

    /// What came of the containers so far, where it is known which ones are dealt with.
    pub open spec fn outcomes(self) -> Option<Seq<OutcomeView>> {
        match self.stage {
            StageView::Replacing { bytes_received, matched, outcomes, current, waiting } => Some(
                outcomes,
            ),
            StageView::Finished { result: Ok(response) } => Some(response.containers),
            _ => None,
        }
    }

    /// The name of the container that is being replaced, as its inspection gave it, while the new
    /// one is to take it over.
    pub open spec fn current_name(self) -> Option<Seq<char>> {
        match self.stage {
            StageView::Replacing { bytes_received, matched, outcomes, current, waiting } => {
                current.name()
            },
            _ => None,
        }
    }

    /// The stage after the engine replied to the request that was due.
    pub open spec fn after_reply(self, reply: ReplyView) -> StageView {
        match self.stage {
            StageView::Listing { bytes_received } => match list_outcome(reply) {
                Ok(listed) => next_inspection(
                    self.trace_id,
                    self.image_ref,
                    bytes_received,
                    seq![],
                    listed,
                ),
                Err(error) => StageView::Finished { result: Err(error) },
            },
            StageView::Inspecting { bytes_received, inspected, current, waiting } => {
                let one = current.inspected(json_outcome(reply));
                next_inspection(
                    self.trace_id,
                    self.image_ref,
                    bytes_received,
                    inspected.push(one),
                    waiting,
                )
            },
            StageView::Replacing { bytes_received, matched, outcomes, current, waiting } => {
                let next = current.advance(reply);
                match next.result() {
                    Some(replaced) => next_container(
                        self.trace_id,
                        self.image_ref,
                        bytes_received,
                        matched,
                        outcomes.push(replace_outcome(next.container, replaced)),
                        waiting,
                    ),
                    None => StageView::Replacing {
                        bytes_received,
                        matched,
                        outcomes,
                        current: next,
                        waiting,
                    },
                }
            },
            _ => self.stage,
        }
    }

    /// The deployment after an event. An event that the stage does not wait for changes nothing.
    pub open spec fn step(self, event: EventView) -> DeploymentView {
        let stage = match event {
            EventView::Received(size) => match self.stage {
                StageView::Receiving { bytes_received } => StageView::Receiving {
                    bytes_received: bytes_received + size,
                },
                _ => self.stage,
            },
            EventView::Ended => match self.stage {
                StageView::Receiving { bytes_received } => StageView::Loading { bytes_received },
                _ => self.stage,
            },
            EventView::Broken => match self.stage {
                StageView::Receiving { .. } => StageView::Finished {
                    result: Err(ErrorView::InvalidBody),
                },
                _ => self.stage,
            },
            EventView::Unwritten(text) => match self.stage {
                StageView::Receiving { .. } => StageView::Finished {
                    result: Err(ErrorView::ConfigRead(text)),
                },
                _ => self.stage,
            },
            EventView::Loaded(loaded) => match self.stage {
                StageView::Loading { bytes_received } => StageView::Deleting {
                    bytes_received,
                    loaded,
                },
                _ => self.stage,
            },
            EventView::Deleted => match self.stage {
                StageView::Deleting { bytes_received, loaded } => match loaded {
                    Ok(_) => StageView::Listing { bytes_received },
                    Err(error) => StageView::Finished { result: Err(error) },
                },
                _ => self.stage,
            },
            EventView::Replied(reply) => self.after_reply(reply),
        };
        DeploymentView { stage, ..self }
    }

    /// The count of the received bytes still fits into 64 bits after the event.
    pub open spec fn has_room_for(self, event: EventView) -> bool {
        match self.stage {
            StageView::Receiving { bytes_received } => match event {
                EventView::Received(size) => bytes_received + size <= u64::MAX,
                _ => true,
            },
            _ => true,
        }
    }
}

impl Deployment {
    /// The deployment of an image, before anything was received.
    pub fn start(trace_id: String, image_ref: String) -> (res: Deployment)
        ensures
            res@ == DeploymentView::start(trace_id@, image_ref@),
    {
        Deployment { trace_id, image_ref, stage: Stage::Receiving { bytes_received: 0 } }
    }

    /// The deployment that a request asks for, where it may, given the last part of its path and
    /// what its `Authorization` header holds. It gets an id of its own.
    pub fn deploy_image(
        config: &AppConfig,
        encoded_image_ref: &str,
        header: Option<&[u8]>,
    ) -> (res: Result<Deployment, AppError>)
        ensures
            match authorized_image(config@, encoded_image_ref@, header_bytes(header)) {
                Ok(image_ref) => {
                    &&& res is Ok
                    &&& is_random_uuid(res->Ok_0@.trace_id)
                    &&& res->Ok_0@ == DeploymentView::start(res->Ok_0@.trace_id, image_ref)
                },
                Err(error) => res is Err && res->Err_0@ == error,
            },
    {
        match authorize(config, encoded_image_ref, header) {
            Ok(image_ref) => Ok(Deployment::start(new_uuid(), image_ref)),
            Err(error) => Err(error),
        }
    }

    /// The id of the deployment.
    pub fn trace_id(&self) -> (res: &str)
        ensures
            res@ == self@.trace_id,
    {
        self.trace_id.as_str()
    }

    /// The image that is deployed.
    pub fn image_ref(&self) -> (res: &str)
        ensures
            res@ == self@.image_ref,
    {
        self.image_ref.as_str()
    }

    /// What is to be done next.
    pub fn action(&self) -> (res: Action)
        ensures
            res@ == self@.action(),
    {
        match &self.stage {
            Stage::Receiving { .. } => Action::Receive,
            Stage::Loading { bytes_received } => Action::Load(*bytes_received),
            Stage::Deleting { .. } => Action::Delete,
            Stage::Listing { .. } => Action::Send(list_containers()),
            Stage::Inspecting { current, .. } => Action::Send(
                inspect_container(current.summary.id.as_str()),
            ),
            Stage::Replacing { current, .. } => match current.request() {
                Some(request) => Action::Send(request),
                None => Action::Answer,
            },
            Stage::Finished { .. } => Action::Answer,
        }
    }

    /// How many containers are dealt with, where that is known.
    pub fn matched(&self) -> (res: Option<usize>)
        ensures
            res is Some <==> self@.matched() is Some,
            res is Some ==> res->0 == self@.matched()->0,
    {
        match &self.stage {
            Stage::Replacing { matched, .. } => Some(*matched),
            Stage::Finished { result: Ok(response) } => Some(response.containers.len()),
            _ => None,
        }
    }

    /// What came of the containers so far, where it is known which ones are dealt with.
    pub fn outcomes(&self) -> (res: Option<&Vec<ContainerReplaceOutcome>>)
        ensures
            res is Some <==> self@.outcomes() is Some,
            res is Some ==> self@.outcomes() == Some(outcome_views(res->0@)),
    {
        match &self.stage {
            Stage::Replacing { outcomes, .. } => Some(outcomes),
            Stage::Finished { result: Ok(response) } => Some(&response.containers),
            _ => None,
        }
    }

    /// The name of the container that is being replaced, as its inspection gave it, while the new
    /// one is to take it over.
    pub fn current_name(&self) -> (res: Option<&str>)
        ensures
            res is Some <==> self@.current_name() is Some,
            res is Some ==> self@.current_name() == Some(res->0@),
    {
        match &self.stage {
            Stage::Replacing { current, .. } => current.name(),
            _ => None,
        }
    }

    /// Whether the count of the received bytes still fits into 64 bits after the event.
    pub fn has_room_for(&self, event: &Event) -> (res: bool)
        ensures
            res == self@.has_room_for(event@),
    {
        match &self.stage {
            Stage::Receiving { bytes_received } => match event {
                Event::Received(size) => *size as u64 <= u64::MAX - *bytes_received,
                _ => true,
            },
            _ => true,
        }
    }

    /// The deployment after an event.
    pub fn step(self, engine: &EngineClient, event: Event) -> (res: Deployment)
        requires
            self@.has_room_for(event@),
        ensures
            res@ == self@.step(event@),
    {
        match event {
            Event::Received(size) => self.received(size),
            Event::Ended => self.ended(),
            Event::Broken => self.failed_upload(AppError::InvalidBody),
            Event::Unwritten(text) => self.failed_upload(AppError::ConfigRead(text)),
            Event::Loaded(loaded) => self.loaded(loaded),
            Event::Deleted => self.deleted(),
            Event::Replied(reply) => self.replied(engine, &reply),
        }
    }

    fn received(self, size: usize) -> (res: Deployment)
        requires
            self@.has_room_for(EventView::Received(size as int)),
        ensures
            res@ == self@.step(EventView::Received(size as int)),
    {
        let Deployment { trace_id, image_ref, stage } = self;
        let stage = match stage {
            Stage::Receiving { bytes_received } => Stage::Receiving {
                bytes_received: bytes_received + size as u64,
            },
            other => other,
        };
        Deployment { trace_id, image_ref, stage }
    }

    fn ended(self) -> (res: Deployment)
        ensures
            res@ == self@.step(EventView::Ended),
    {
        let Deployment { trace_id, image_ref, stage } = self;
        let stage = match stage {
            Stage::Receiving { bytes_received } => Stage::Loading { bytes_received },
            other => other,
        };
        Deployment { trace_id, image_ref, stage }
    }

    fn failed_upload(self, error: AppError) -> (res: Deployment)
        ensures
            error@ == ErrorView::InvalidBody ==> res@ == self@.step(EventView::Broken),
            error@ is ConfigRead ==> res@ == self@.step(
                EventView::Unwritten(error@->ConfigRead_0),
            ),
    {
        let Deployment { trace_id, image_ref, stage } = self;
        let stage = match stage {
            Stage::Receiving { .. } => Stage::Finished { result: Err(error) },
            other => other,
        };
        Deployment { trace_id, image_ref, stage }
    }

    fn loaded(self, loaded: Result<(), AppError>) -> (res: Deployment)
        ensures
            res@ == self@.step(EventView::Loaded(acknowledgement(loaded))),
    {
        let Deployment { trace_id, image_ref, stage } = self;
        let stage = match stage {
            Stage::Loading { bytes_received } => Stage::Deleting { bytes_received, loaded },
            other => other,
        };
        Deployment { trace_id, image_ref, stage }
    }

    fn deleted(self) -> (res: Deployment)
        ensures
            res@ == self@.step(EventView::Deleted),
    {
        let Deployment { trace_id, image_ref, stage } = self;
        let stage = match stage {
            Stage::Deleting { bytes_received, loaded } => match loaded {
                Ok(_) => Stage::Listing { bytes_received },
                Err(error) => Stage::Finished { result: Err(error) },
            },
            other => other,
        };
        Deployment { trace_id, image_ref, stage }
    }

    fn replied(self, engine: &EngineClient, reply: &EngineReply) -> (res: Deployment)
        ensures
            res@ == self@.step(EventView::Replied(reply@)),
    {
        let Deployment { trace_id, image_ref, stage } = self;
        match stage {
            Stage::Listing { bytes_received } => match engine.list_all_containers(reply) {
                Ok(listed) => {
                    let none: Vec<InspectedContainer> = Vec::new();
                    assert(inspected_views(none@) =~= seq![]);
                    inspect_next(engine, trace_id, image_ref, bytes_received, none, listed)
                },
                Err(error) => Deployment {
                    trace_id,
                    image_ref,
                    stage: Stage::Finished { result: Err(error) },
                },
            },
            Stage::Inspecting { bytes_received, inspected, current, waiting } => {
                let mut inspected = inspected;
                let ghost before = inspected@;
                let one = current.inspected(parse_json_response(reply));
                inspected.push(one);
                assert(inspected_views(inspected@) =~= inspected_views(before).push(one@));
                inspect_next(engine, trace_id, image_ref, bytes_received, inspected, waiting)
            },
            Stage::Replacing { bytes_received, matched, outcomes, current, waiting } => {
                match current.advance(reply).finish() {
                    Ok((container, replaced)) => {
                        let mut outcomes = outcomes;
                        let ghost before = outcomes@;
                        let one = engine.replace_container(&container, replaced);
                        outcomes.push(one);
                        assert(outcome_views(outcomes@) =~= outcome_views(before).push(one@));
                        replace_next(
                            engine,
                            trace_id,
                            image_ref,
                            bytes_received,
                            matched,
                            outcomes,
                            waiting,
                        )
                    },
                    Err(current) => Deployment {
                        trace_id,
                        image_ref,
                        stage: Stage::Replacing {
                            bytes_received,
                            matched,
                            outcomes,
                            current,
                            waiting,
                        },
                    },
                }
            },
            other => Deployment { trace_id, image_ref, stage: other },
        }
    }

    /// The result, where the request can be answered; else the deployment.
    pub fn finish(self) -> (res: Result<Result<DeployResponse, AppError>, Deployment>)
        ensures
            match res {
                Ok(result) => self@.result() == Some(outcome(result)),
                Err(same) => same@ == self@ && self@.result() is None,
            },
    {
        let Deployment { trace_id, image_ref, stage } = self;
        match stage {
            Stage::Finished { result } => Ok(result),
            other => Err(Deployment { trace_id, image_ref, stage: other }),
        }
    }
}

/// The deployment where some containers were inspected and others follow.
fn inspect_next(
    engine: &EngineClient,
    trace_id: String,
    image_ref: String,
    bytes_received: u64,
    inspected: Vec<InspectedContainer>,
    waiting: Vec<ListedContainer>,
) -> (res: Deployment)
    ensures
        res@.trace_id == trace_id@,
        res@.image_ref == image_ref@,
        res@.stage == next_inspection(
            trace_id@,
            image_ref@,
            bytes_received as int,
            inspected_views(inspected@),
            listed_views(waiting@),
        ),
{
    if waiting.len() > 0 {
        let mut waiting = waiting;
        let ghost before = waiting@;
        let current = waiting.remove(0);
        assert(listed_views(waiting@) =~= listed_views(before).drop_first());
        Deployment {
            trace_id,
            image_ref,
            stage: Stage::Inspecting { bytes_received, inspected, current, waiting },
        }
    } else {
        let containers = engine.list_containers_by_image(inspected, image_ref.as_str());
        let none: Vec<ContainerReplaceOutcome> = Vec::new();
        assert(outcome_views(none@) =~= seq![]);
        let matched: usize = containers.len();
        replace_next(engine, trace_id, image_ref, bytes_received, matched, none, containers)
    }
}

/// The deployment where some outcomes are known and some containers follow.
fn replace_next(
    engine: &EngineClient,
    trace_id: String,
    image_ref: String,
    bytes_received: u64,
    matched: usize,
    outcomes: Vec<ContainerReplaceOutcome>,
    waiting: Vec<InspectedContainer>,
) -> (res: Deployment)
    ensures
        res@.trace_id == trace_id@,
        res@.image_ref == image_ref@,
        res@.stage == next_container(
            trace_id@,
            image_ref@,
            bytes_received as int,
            matched as int,
            outcome_views(outcomes@),
            inspected_views(waiting@),
        ),
{
    let ghost wanted = next_container(
        trace_id@,
        image_ref@,
        bytes_received as int,
        matched as int,
        outcome_views(outcomes@),
        inspected_views(waiting@),
    );
    let mut done = outcomes;
    let mut left = waiting;
    while left.len() > 0
        invariant
            wanted == next_container(
                trace_id@,
                image_ref@,
                bytes_received as int,
                matched as int,
                outcome_views(outcomes@),
                inspected_views(waiting@),
            ),
            wanted == next_container(
                trace_id@,
                image_ref@,
                bytes_received as int,
                matched as int,
                outcome_views(done@),
                inspected_views(left@),
            ),
        decreases left@.len(),
    {
        let ghost before = left@;
        let InspectedContainer { summary, inspect, .. } = left.remove(0);
        assert(inspected_views(left@) =~= inspected_views(before).drop_first());
        let current = Replacement::start(summary, image_ref.clone());
        match current.step(ReplaceEvent::Document(inspect)).finish() {
            Ok((container, replaced)) => {
                let ghost known = done@;
                let one = engine.replace_container(&container, replaced);
                done.push(one);
                assert(outcome_views(done@) =~= outcome_views(known).push(one@));
            },
            Err(current) => {
                return Deployment {
                    trace_id,
                    image_ref,
                    stage: Stage::Replacing {
                        bytes_received,
                        matched,
                        outcomes: done,
                        current,
                        waiting: left,
                    },
                };
            },
        }
    }
    let response = DeployResponse::summarize(
        trace_id.clone(),
        image_ref.clone(),
        bytes_received,
        done,
    );
    Deployment { trace_id, image_ref, stage: Stage::Finished { result: Ok(response) } }
}

/// The file of an upload is named after its id.
pub proof fn law_upload_is_named_after_its_id(id: Seq<char>)
    ensures
        upload_name(id) == "upload-"@ + id + ".tar"@,
{
}

/// What an action and an event say is what they carry.
pub proof fn law_actions_and_events_say_what_they_carry(
    bytes_received: u64,
    request: EngineRequest,
    size: usize,
    text: String,
    loaded: Result<(), AppError>,
    reply: EngineReply,
)
    ensures
        Action::Receive@ is Receive,
        Action::Load(bytes_received)@ == ActionView::Load(bytes_received as int),
        Action::Delete@ is Delete,
        Action::Send(request)@ == ActionView::Send(request@),
        Action::Answer@ is Answer,
        Event::Received(size)@ == EventView::Received(size as int),
        Event::Ended@ is Ended,
        Event::Broken@ is Broken,
        Event::Unwritten(text)@ == EventView::Unwritten(text@),
        Event::Loaded(loaded)@ is Loaded,
        loaded is Ok <==> Event::Loaded(loaded)@->Loaded_0 is Ok,
        loaded is Err ==> Event::Loaded(loaded)@ == EventView::Loaded(Err(loaded->Err_0@)),
        Event::Deleted@ is Deleted,
        Event::Replied(reply)@ == EventView::Replied(reply@),
{
}

/// An event that a deployment does not wait for changes nothing: what is not part of an upload while
/// it is received, what is not the result of the load or the deletion while these are due, what is
/// not a reply while the engine was asked, and anything after the end.
pub proof fn law_unawaited_event_changes_nothing(state: DeploymentView, event: EventView)
    requires
        match state.stage {
            StageView::Receiving { .. } => event is Loaded || event is Deleted || event is Replied,
            StageView::Loading { .. } => event !is Loaded,
            StageView::Deleting { .. } => event !is Deleted,
            StageView::Finished { .. } => true,
            _ => event !is Replied,
        },
    ensures
        state.step(event) == state,
{
}

} // verus!
