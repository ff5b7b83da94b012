//! The container engine: the requests that it is sent and what its replies mean.

use vstd::prelude::*;
use vstd::utf8::encode_utf8;

use crate::error::{outcome, AppError, ErrorView};
use crate::json::{
    entry_trees, json_text, members, parsed_json, parsed_json_array, trees, Json, JsonView,
};
use crate::percent::{percent_encoded, url_encode};
use crate::status::{is_success, status_line, StatusCode};
use crate::text::{
    concat, is_blank, is_white_space, law_leading_run_is_cut, law_lines_end_at_feeds,
    law_trim_cuts_white_space_only, law_trim_leaves_a_part, lines, lines_of, quote, quoted, str_eq,
    texts, trim_start_matches, trimmed, without_leading,
};
use crate::uri::{
    before, has_uri, is_plain, is_target, law_encoded_text_is_plain, law_plain_paths_are_kept,
    socket_uri, uri_of,
};

verus! {

/// The method of a request.
#[derive(Debug, Clone, Copy, PartialEq, Eq)]
pub enum Method {
    Get,
    Post,
    Delete,
}

/// A request to the engine: its path is what stands behind the address of the socket.
#[derive(Debug, Clone, PartialEq)]
pub struct EngineRequest {
    pub method: Method,
    pub path: String,
    pub content_type: Option<String>,
    pub body: Vec<u8>,
}

/// What a request says.
pub struct RequestView {
    pub method: Method,
    pub path: Seq<char>,
    pub content_type: Option<Seq<char>>,
    pub body: Seq<u8>,
}

impl View for EngineRequest {
    type V = RequestView;

    open spec fn view(&self) -> RequestView {
        RequestView {
            method: self.method,
            path: self.path@,
            content_type: match self.content_type {
                Some(s) => Some(s@),
                None => None,
            },
            body: self.body@,
        }
    }
}

/// What came of a request: a reply, or the text of the error that stood in its way.
#[derive(Debug, Clone, PartialEq)]
pub enum EngineReply {
    Response { status: StatusCode, body: Vec<u8> },
    Failed(String),
}

/// What a reply says.
pub enum ReplyView {
    Response { status: u16, body: Seq<u8> },
    Failed(Seq<char>),
}

impl View for EngineReply {
    type V = ReplyView;

    open spec fn view(&self) -> ReplyView {
        match *self {
            EngineReply::Response { status, body } => ReplyView::Response {
                status: status@,
                body: body@,
            },
            EngineReply::Failed(text) => ReplyView::Failed(text@),
        }
    }
}

/// A container: its id, and its name without the slash that the engine puts before it.
#[derive(Debug, Clone, PartialEq)]
pub struct ContainerSummary {
    pub id: String,
    pub name: String,
}

/// What a container's summary says.
pub struct SummaryView {
    pub id: Seq<char>,
    pub name: Seq<char>,
}

impl View for ContainerSummary {
    type V = SummaryView;

    open spec fn view(&self) -> SummaryView {
        SummaryView { id: self.id@, name: self.name@ }
    }
}

/// A container of the engine's list, and the image that the list names for it.
#[derive(Debug, Clone, PartialEq)]
pub struct ListedContainer {
    pub summary: ContainerSummary,
    pub image: Option<String>,
}

/// What a listed container says.
pub struct ListedView {
    pub summary: SummaryView,
    pub image: Option<Seq<char>>,
}

/// What an optional text says.
pub open spec fn optional_text(text: Option<String>) -> Option<Seq<char>> {
    match text {
        Some(text) => Some(text@),
        None => None,
    }
}

impl View for ListedContainer {
    type V = ListedView;

    open spec fn view(&self) -> ListedView {
        ListedView { summary: self.summary@, image: optional_text(self.image) }
    }
}

/// What the listed containers say.
pub open spec fn listed_views(list: Seq<ListedContainer>) -> Seq<ListedView> {
    list.map_values(|c: ListedContainer| c@)
}

/// A container of the engine's list, the image that the list names for it, and what its inspection
/// gave.
#[derive(Debug, PartialEq)]
pub struct InspectedContainer {
    pub summary: ContainerSummary,
    pub listed_image: Option<String>,
    pub inspect: Result<Json, AppError>,
}

/// What an inspected container says.
pub struct InspectedView {
    pub summary: SummaryView,
    pub listed_image: Option<Seq<char>>,
    pub inspect: Result<JsonView, ErrorView>,
}

impl View for InspectedContainer {
    type V = InspectedView;

    open spec fn view(&self) -> InspectedView {
        InspectedView {
            summary: self.summary@,
            listed_image: optional_text(self.listed_image),
            inspect: outcome(self.inspect),
        }
    }
}

impl ListedView {
    /// The listed container with what its inspection gave.
    pub open spec fn inspected(self, inspect: Result<JsonView, ErrorView>) -> InspectedView {
        InspectedView { summary: self.summary, listed_image: self.image, inspect }
    }
}

impl ListedContainer {
    /// The listed container with what its inspection gave.
    pub fn inspected(self, inspect: Result<Json, AppError>) -> (res: InspectedContainer)
        ensures
            res@ == self@.inspected(outcome(inspect)),
    {
        InspectedContainer { summary: self.summary, listed_image: self.image, inspect }
    }
}

/// What the inspected containers of a list say.
pub open spec fn inspected_views(list: Seq<InspectedContainer>) -> Seq<InspectedView> {
    list.map_values(|c: InspectedContainer| c@)
}

/// Whether a container was replaced.
#[derive(Debug, Clone, Copy, PartialEq, Eq)]
pub enum ReplaceStatus {
    Replaced,
    Failed,
}

/// What came of the replacement of a container.
#[derive(Debug, Clone, PartialEq)]
pub struct ContainerReplaceOutcome {
    pub container_id: String,
    pub container_name: String,
    pub new_container_id: Option<String>,
    pub status: ReplaceStatus,
    pub message: String,
}

/// What an outcome says.
pub struct OutcomeView {
    pub container_id: Seq<char>,
    pub container_name: Seq<char>,
    pub new_container_id: Option<Seq<char>>,
    pub status: ReplaceStatus,
    pub message: Seq<char>,
}

impl View for ContainerReplaceOutcome {
    type V = OutcomeView;

    open spec fn view(&self) -> OutcomeView {
        OutcomeView {
            container_id: self.container_id@,
            container_name: self.container_name@,
            new_container_id: match self.new_container_id {
                Some(s) => Some(s@),
                None => None,
            },
            status: self.status,
            message: self.message@,
        }
    }
}

/// What the outcomes of a list say.
pub open spec fn outcome_views(list: Seq<ContainerReplaceOutcome>) -> Seq<OutcomeView> {
    list.map_values(|o: ContainerReplaceOutcome| o@)
}

// ---- Payload of a new container ----

/// The fields of a container's configuration that its replacement keeps.
pub open spec fn kept_fields() -> Seq<Seq<char>> {
    seq![
        "Cmd"@,
        "Entrypoint"@,
        "Env"@,
        "ExposedPorts"@,
        "Labels"@,
        "OpenStdin"@,
        "StdinOnce"@,
        "Tty"@,
        "User"@,
        "WorkingDir"@,
        "StopSignal"@,
        "StopTimeout"@,
        "AttachStderr"@,
        "AttachStdin"@,
        "AttachStdout"@,
    ]
}

/// The host configuration of an inspected container.
pub open spec fn host_config(inspect: JsonView) -> JsonView {
    match inspect.get("HostConfig"@) {
        Some(value) => value,
        None => JsonView::Object(Map::empty()),
    }
}

/// The networks of an inspected container, as the configuration of a new one.
pub open spec fn networking_config(inspect: JsonView) -> JsonView {
    match inspect.get("NetworkSettings"@) {
        Some(settings) => match settings.get("Networks"@) {
            Some(networks) => JsonView::Object(map!["EndpointsConfig"@ => networks]),
            None => JsonView::Object(Map::empty()),
        },
        None => JsonView::Object(Map::empty()),
    }
}

/// The members of the description of a new container: the kept fields of the old one's
/// configuration, the image, and the host and network configurations.
pub open spec fn payload_members(
    config: Map<Seq<char>, JsonView>,
    image_ref: Seq<char>,
    host: JsonView,
    networking: JsonView,
) -> Map<Seq<char>, JsonView> {
    config.restrict(kept_fields().to_set()).insert("Image"@, JsonView::Text(image_ref)).insert(
        "HostConfig"@,
        host,
    ).insert("NetworkingConfig"@, networking)
}

/// The description of a new container that runs `image_ref` in the way of an inspected one.
pub open spec fn create_payload(inspect: JsonView, image_ref: Seq<char>) -> Result<
    JsonView,
    ErrorView,
> {
    match inspect.get("Config"@) {
        None => Err(ErrorView::ContainerReplace("container inspect missing Config"@)),
        Some(JsonView::Object(config)) => Ok(
            JsonView::Object(
                payload_members(config, image_ref, host_config(inspect), networking_config(inspect)),
            ),
        ),
        Some(_) => Err(ErrorView::ContainerReplace("container Config is not an object"@)),
    }
}

/// Adds a member to an object that is being built.
fn insert_member(entries: &mut Vec<(String, Json)>, name: &str, value: Json)
    ensures
        members(entry_trees(final(entries)@)) == members(entry_trees(old(entries)@)).insert(
            name@,
            value@,
        ),
{
    let ghost before = entries@;
    entries.push((name.to_owned(), value));
    assert(entries@.drop_last() == before);
    assert(entry_trees(entries@).drop_last() == entry_trees(before));
}

/// The description of a new container that runs `image_ref` in the way of an inspected one.
pub fn build_create_payload(inspect: &Json, image_ref: &str) -> (res: Result<Json, AppError>)
    ensures
        outcome(res) == create_payload(inspect@, image_ref@),
{
    let config = match inspect.get("Config") {
        Some(config) => config,
        None => {
            return Err(
                AppError::ContainerReplace("container inspect missing Config".to_owned()),
            );
        },
    };
    match config {
        Json::Object(_) => {},
        _ => {
            return Err(
                AppError::ContainerReplace("container Config is not an object".to_owned()),
            );
        },
    }
    let host = match inspect.get("HostConfig") {
        Some(value) => value.clone(),
        None => {
            let empty: Vec<(String, Json)> = Vec::new();
            Json::Object(empty)
        },
    };
    assert(host@ == host_config(inspect@));
    let networks = match inspect.get("NetworkSettings") {
        Some(settings) => settings.get("Networks"),
        None => None,
    };
    let mut endpoints: Vec<(String, Json)> = Vec::new();
    if let Some(networks) = networks {
        insert_member(&mut endpoints, "EndpointsConfig", networks.clone());
    }
    let networking = Json::Object(endpoints);
    assert(networking@ == networking_config(inspect@));
    let kept: [&str; 15] = [
        "Cmd",
        "Entrypoint",
        "Env",
        "ExposedPorts",
        "Labels",
        "OpenStdin",
        "StdinOnce",
        "Tty",
        "User",
        "WorkingDir",
        "StopSignal",
        "StopTimeout",
        "AttachStderr",
        "AttachStdin",
        "AttachStdout",
    ];
    let ghost fields = kept_fields();
    let ghost source = config@->Object_0;
    let mut payload: Vec<(String, Json)> = Vec::new();
    assert(members(entry_trees(payload@)) =~= source.restrict(fields.take(0).to_set()));
    let mut i: usize = 0;
    while i < 15
        invariant
            0 <= i <= 15,
            fields == kept_fields(),
            fields.len() == 15,
            forall|j: int| 0 <= j < 15 ==> (#[trigger] kept@[j])@ == fields[j],
            config@ == JsonView::Object(source),
            members(entry_trees(payload@)) == source.restrict(fields.take(i as int).to_set()),
        decreases 15 - i,
    {
        let ghost name = fields[i as int];
        assert(kept@[i as int]@ == name);
        let ghost done = fields.take(i as int);
        assert(fields.take(i + 1) =~= done.push(name));
        proof {
            lemma_to_set_push(done, name);
        }
        if let Some(value) = config.get(kept[i]) {
            insert_member(&mut payload, kept[i], value.clone());
        }
        assert(members(entry_trees(payload@)) =~= source.restrict(
            fields.take(i + 1).to_set(),
        ));
        i = i + 1;
    }
    assert(fields.take(15) =~= fields);
    insert_member(&mut payload, "Image", Json::Text(image_ref.to_owned()));
    insert_member(&mut payload, "HostConfig", host);
    insert_member(&mut payload, "NetworkingConfig", networking);
    Ok(Json::Object(payload))
}

proof fn lemma_to_set_push(s: Seq<Seq<char>>, x: Seq<char>)
    ensures
        s.push(x).to_set() == s.to_set().insert(x),
{
    assert forall|y: Seq<char>| s.push(x).to_set().contains(y) == s.to_set().insert(x).contains(
        y,
    ) by {
        if s.contains(y) {
            let k = choose|k: int| 0 <= k < s.len() && s[k] == y;
            assert(s.push(x)[k] == y);
        }
        if y == x {
            assert(s.push(x)[s.len() as int] == y);
        }
    }
    assert(s.push(x).to_set() =~= s.to_set().insert(x));
}

// ---- Requests ----

/// A request without a body.
pub open spec fn bare_request(method: Method, path: Seq<char>) -> RequestView {
    RequestView { method, path, content_type: None, body: seq![] }
}

/// Loads the image that a tar archive holds.
pub open spec fn load_request(tar: Seq<u8>) -> RequestView {
    RequestView {
        method: Method::Post,
        path: "/images/load?quiet=1"@,
        content_type: Some("application/x-tar"@),
        body: tar,
    }
}

/// Lists all containers.
pub open spec fn list_request() -> RequestView {
    bare_request(Method::Get, "/containers/json?all=1"@)
}

/// Inspects a container.
pub open spec fn inspect_request(id: Seq<char>) -> RequestView {
    bare_request(Method::Get, "/containers/"@ + id + "/json"@)
}

/// Creates a container under the given name.
pub open spec fn create_request(name: Seq<char>, payload: JsonView) -> RequestView {
    RequestView {
        method: Method::Post,
        path: "/containers/create?name="@ + percent_encoded(encode_utf8(name)),
        content_type: Some("application/json"@),
        body: encode_utf8(json_text(payload)),
    }
}

/// Stops a container, with ten seconds of grace.
pub open spec fn stop_request(id: Seq<char>) -> RequestView {
    bare_request(Method::Post, "/containers/"@ + id + "/stop?t=10"@)
}

/// Starts a container.
pub open spec fn start_request(id: Seq<char>) -> RequestView {
    bare_request(Method::Post, "/containers/"@ + id + "/start"@)
}

/// Removes a container, by force where `force` says so.
pub open spec fn remove_request(id: Seq<char>, force: bool) -> RequestView {
    bare_request(
        Method::Delete,
        "/containers/"@ + id + "?force="@ + (if force {
            "1"@
        } else {
            "0"@
        }),
    )
}

/// Gives a container another name.
pub open spec fn rename_request(id: Seq<char>, name: Seq<char>) -> RequestView {
    bare_request(
        Method::Post,
        "/containers/"@ + id + "/rename?name="@ + percent_encoded(encode_utf8(name)),
    )
}

/// A request without a body.
fn empty_request(method: Method, path: String) -> (res: EngineRequest)
    ensures
        res@ == bare_request(method, path@),
{
    EngineRequest { method, path, content_type: None, body: Vec::new() }
}

/// The path of a container, with a suffix.
fn container_path(id: &str, suffix: &str) -> (res: String)
    ensures
        res@ == "/containers/"@ + id@ + suffix@,
{
    concat(concat("/containers/", id).as_str(), suffix)
}

/// The request that loads the image of a tar archive.
pub fn load_image(tar: Vec<u8>) -> (res: EngineRequest)
    ensures
        res@ == load_request(tar@),
{
    EngineRequest {
        method: Method::Post,
        path: "/images/load?quiet=1".to_owned(),
        content_type: Some("application/x-tar".to_owned()),
        body: tar,
    }
}

/// The request that lists all containers.
pub fn list_containers() -> (res: EngineRequest)
    ensures
        res@ == list_request(),
{
    empty_request(Method::Get, "/containers/json?all=1".to_owned())
}

/// The request that inspects a container.
pub fn inspect_container(id: &str) -> (res: EngineRequest)
    ensures
        res@ == inspect_request(id@),
{
    empty_request(Method::Get, container_path(id, "/json"))
}

/// The request that creates a container.
pub fn create_container(name: &str, payload: &Json) -> (res: Result<EngineRequest, AppError>)
    ensures
        outcome(res) == Ok::<RequestView, ErrorView>(create_request(name@, payload@)),
{
    let path = concat("/containers/create?name=", url_encode(name).as_str());
    match payload.to_bytes() {
        Ok(body) => Ok(
            EngineRequest {
                method: Method::Post,
                path,
                content_type: Some("application/json".to_owned()),
                body,
            },
        ),
        Err(text) => Err(AppError::EngineRequest(text)),
    }
}

/// The request that stops a container.
pub fn stop_container(id: &str) -> (res: EngineRequest)
    ensures
        res@ == stop_request(id@),
{
    empty_request(Method::Post, container_path(id, "/stop?t=10"))
}

/// The request that starts a container.
pub fn start_container(id: &str) -> (res: EngineRequest)
    ensures
        res@ == start_request(id@),
{
    empty_request(Method::Post, container_path(id, "/start"))
}

/// The request that removes a container.
pub fn remove_container(id: &str, force: bool) -> (res: EngineRequest)
    ensures
        res@ == remove_request(id@, force),
{
    let start = container_path(id, "?force=");
    let flag = if force {
        "1"
    } else {
        "0"
    };
    empty_request(Method::Delete, concat(start.as_str(), flag))
}

/// The request that gives a container another name.
pub fn rename_container(id: &str, new_name: &str) -> (res: EngineRequest)
    ensures
        res@ == rename_request(id@, new_name@),
{
    let start = container_path(id, "/rename?name=");
    empty_request(Method::Post, concat(start.as_str(), url_encode(new_name).as_str()))
}

// ---- Replies ----

/// How a reply with an unwelcome status is worded.
pub open spec fn refusal(prefix: Seq<char>, status_text: Seq<char>, body_text: Seq<char>) -> Seq<
    char,
> {
    prefix + status_text + ": "@ + body_text
}

/// How a reply with an unwelcome status is worded.
pub fn refusal_text(prefix: &str, status_text: &str, body_text: &str) -> (res: String)
    ensures
        res@ == refusal(prefix@, status_text@, body_text@),
{
    let start = concat(prefix, status_text);
    concat(concat(start.as_str(), ": ").as_str(), body_text)
}

/// The error of a reply with an unwelcome status.
pub open spec fn refused(prefix: Seq<char>, status: u16, body: Seq<u8>) -> ErrorView {
    ErrorView::EngineResponse(refusal(prefix, status_line(status), quoted(body)))
}

fn refused_error(prefix: &str, status: StatusCode, body: &[u8]) -> (res: AppError)
    ensures
        res@ == refused(prefix@, status@, body@),
{
    AppError::EngineResponse(
        refusal_text(prefix, status.to_text().as_str(), quote(body).as_str()),
    )
}

/// What a reply that brings a document says.
pub open spec fn json_outcome(reply: ReplyView) -> Result<JsonView, ErrorView> {
    match reply {
        ReplyView::Failed(text) => Err(ErrorView::EngineRequest(text)),
        ReplyView::Response { status, body } => {
            if status == 204 {
                Ok(JsonView::Null)
            } else if !is_success(status) {
                Err(refused("status "@, status, body))
            } else {
                match parsed_json(body) {
                    Ok(document) => Ok(document),
                    Err(text) => Err(ErrorView::EngineResponse(text)),
                }
            }
        },
    }
}

/// What a reply that brings nothing but its status says.
pub open spec fn empty_outcome(reply: ReplyView) -> Result<(), ErrorView> {
    match reply {
        ReplyView::Failed(text) => Err(ErrorView::EngineRequest(text)),
        ReplyView::Response { status, body } => {
            if is_success(status) || status == 304 {
                Ok(())
            } else {
                Err(refused("status "@, status, body))
            }
        },
    }
}

/// The document that a reply brings.
pub fn parse_json_response(reply: &EngineReply) -> (res: Result<Json, AppError>)
    ensures
        outcome(res) == json_outcome(reply@),
{
    match reply {
        EngineReply::Failed(text) => Err(AppError::EngineRequest(text.clone())),
        EngineReply::Response { status, body } => {
            if status.as_u16() == 204 {
                return Ok(Json::Null);
            }
            if !status.is_success() {
                return Err(refused_error("status ", *status, body.as_slice()));
            }
            match Json::parse(body.as_slice()) {
                Ok(document) => Ok(document),
                Err(text) => Err(AppError::EngineResponse(text)),
            }
        },
    }
}

/// Whether the engine did what it was asked.
pub fn parse_empty_response(reply: &EngineReply) -> (res: Result<(), AppError>)
    ensures
        match res {
            Ok(_) => empty_outcome(reply@) is Ok,
            Err(err) => empty_outcome(reply@) == Err::<(), ErrorView>(err@),
        },
{
    match reply {
        EngineReply::Failed(text) => Err(AppError::EngineRequest(text.clone())),
        EngineReply::Response { status, body } => {
            if status.is_success() || status.as_u16() == 304 {
                return Ok(());
            }
            Err(refused_error("status ", *status, body.as_slice()))
        },
    }
}

// ---- Containers of an image ----

/// The name of a listed container: the first of its names, without the slashes before it.
pub open spec fn listed_name(entry: JsonView) -> Seq<char> {
    let name = match entry.get("Names"@) {
        Some(names) => match names.first() {
            Some(name) => match name.as_text() {
                Some(text) => text,
                None => ""@,
            },
            None => ""@,
        },
        None => ""@,
    };
    without_leading(name, '/')
}

/// A container of the list, where it has an id.
pub open spec fn listed_container(entry: JsonView) -> Option<ListedView> {
    match entry.get_text("Id"@) {
        Some(id) => Some(
            ListedView {
                summary: SummaryView { id, name: listed_name(entry) },
                image: entry.get_text("Image"@),
            },
        ),
        None => None,
    }
}

/// The containers of the list that have an id, in their order.
pub open spec fn listed_containers(entries: Seq<JsonView>) -> Seq<ListedView>
    decreases entries.len(),
{
    if entries.len() == 0 {
        seq![]
    } else {
        let earlier = listed_containers(entries.drop_last());
        match listed_container(entries.last()) {
            Some(container) => earlier.push(container),
            None => earlier,
        }
    }
}

/// What the reply to a list request says.
pub open spec fn list_outcome(reply: ReplyView) -> Result<Seq<ListedView>, ErrorView> {
    match reply {
        ReplyView::Failed(text) => Err(ErrorView::EngineRequest(text)),
        ReplyView::Response { status, body } => {
            if !is_success(status) {
                Err(refused("container list failed with status "@, status, body))
            } else {
                match parsed_json_array(body) {
                    Ok(entries) => Ok(listed_containers(entries)),
                    Err(text) => Err(ErrorView::EngineResponse(text)),
                }
            }
        },
    }
}

/// An inspected container runs the image: its `Config.Image` is exactly the image's name.
pub open spec fn runs_image(inspect: JsonView, image_ref: Seq<char>) -> bool {
    inspect.get("Config"@) is Some && inspect.get("Config"@)->0.get_text("Image"@) == Some(
        image_ref,
    )
}

/// A container is to be dealt with where its inspection shows that it runs the image. Where it could
/// not be inspected, the list decides: a container that it names under the image cannot be replaced,
/// and the answer has to tell of that.
pub open spec fn concerns(container: InspectedView, image_ref: Seq<char>) -> bool {
    match container.inspect {
        Ok(inspect) => runs_image(inspect, image_ref),
        Err(_) => container.listed_image == Some(image_ref),
    }
}

/// The containers that are to be dealt with, in their order.
pub open spec fn containers_by_image(containers: Seq<InspectedView>, image_ref: Seq<char>) -> Seq<
    InspectedView,
>
    decreases containers.len(),
{
    if containers.len() == 0 {
        seq![]
    } else {
        let earlier = containers_by_image(containers.drop_last(), image_ref);
        if concerns(containers.last(), image_ref) {
            earlier.push(containers.last())
        } else {
            earlier
        }
    }
}

/// A container of the list, where it has an id.
fn read_entry(entry: &Json) -> (res: Option<ListedContainer>)
    ensures
        res is Some <==> listed_container(entry@) is Some,
        res is Some ==> listed_container(entry@) == Some(res->0@),
{
    let id = match entry.get_str("Id") {
        Some(id) => id,
        None => {
            return None;
        },
    };
    let mut name: &str = "";
    if let Some(names) = entry.get("Names") {
        if let Some(first) = names.first() {
            if let Some(text) = first.as_str() {
                name = text;
            }
        }
    }
    let summary = ContainerSummary { id: id.to_owned(), name: trim_start_matches(name, '/') };
    let image = match entry.get_str("Image") {
        Some(image) => Some(image.to_owned()),
        None => None,
    };
    Some(ListedContainer { summary, image })
}

/// The containers of the list that have an id, in their order.
pub fn read_entries(entries: &Vec<Json>) -> (res: Vec<ListedContainer>)
    ensures
        listed_views(res@) == listed_containers(trees(entries@)),
{
    let mut res: Vec<ListedContainer> = Vec::new();
    let mut i: usize = 0;
    assert(listed_views(res@) =~= listed_containers(trees(entries@.take(0))));
    while i < entries.len()
        invariant
            0 <= i <= entries@.len(),
            listed_views(res@) == listed_containers(trees(entries@.take(i as int))),
        decreases entries@.len() - i,
    {
        let ghost before = res@;
        assert(entries@.take(i + 1).drop_last() == entries@.take(i as int));
        let ghost views = trees(entries@.take(i + 1));
        assert(views.drop_last() == trees(entries@.take(i as int)));
        assert(views.last() == entries@[i as int]@);
        if let Some(container) = read_entry(&entries[i]) {
            res.push(container);
            assert(listed_views(res@) =~= listed_views(before).push(container@));
        }
        i = i + 1;
    }
    assert(entries@.take(i as int) == entries@);
    res
}

/// Whether an inspected container runs the image.
fn is_running(inspect: &Json, image_ref: &str) -> (res: bool)
    ensures
        res == runs_image(inspect@, image_ref@),
{
    match inspect.get("Config") {
        Some(config) => match config.get_str("Image") {
            Some(image) => str_eq(image, image_ref),
            None => false,
        },
        None => false,
    }
}

// ---- Result of loading an image ----

/// A line of the report that the engine gives while it loads an image.
#[derive(Debug, Clone, PartialEq)]
pub struct ImageLoadLine {
    pub error: Option<String>,
    pub error_detail: Option<Json>,
}

impl ImageLoadLine {
    /// The error that the line reports: its text, or else the JSON text of its detail.
    pub open spec fn reported(self) -> Option<Seq<char>> {
        match self.error {
            Some(error) => Some(error@),
            None => match self.error_detail {
                Some(detail) => Some(json_text(detail@)),
                None => None,
            },
        }
    }
}

/// The lines of a report, without the blank ones.
pub open spec fn report_lines(text: Seq<char>) -> Seq<Seq<char>> {
    lines_of(text).filter(|line: Seq<char>| trimmed(line).len() > 0)
}

/// The first error that the lines of a report hold. A line that could not be read holds none.
pub open spec fn first_reported(report: Seq<Option<ImageLoadLine>>) -> Option<Seq<char>>
    decreases report.len(),
{
    if report.len() == 0 {
        None
    } else if report.first() is Some && report.first()->0.reported() is Some {
        report.first()->0.reported()
    } else {
        first_reported(report.drop_first())
    }
}

/// What the reply to a load request says, given what its lines hold.
pub open spec fn load_outcome(reply: ReplyView, report: Seq<Option<ImageLoadLine>>) -> Result<
    (),
    ErrorView,
> {
    match reply {
        ReplyView::Failed(text) => Err(ErrorView::EngineRequest(text)),
        ReplyView::Response { status, body } => {
            if !is_success(status) {
                Err(refused("image load failed with status "@, status, body))
            } else {
                match first_reported(report) {
                    Some(error) => Err(ErrorView::EngineResponse(error)),
                    None => Ok(()),
                }
            }
        },
    }
}

/// The lines of the report in the body of a reply, without the blank ones.
pub fn load_report_lines(body: &[u8]) -> (res: Vec<String>)
    ensures
        texts(res@) == report_lines(quoted(body@)),
{
    let text = quote(body);
    let all = lines(text.as_str());
    let ghost wanted = |line: Seq<char>| trimmed(line).len() > 0;
    let ghost given = texts(all@);
    let mut res: Vec<String> = Vec::new();
    let mut i: usize = 0;
    proof {
        reveal(Seq::filter);
    }
    assert(texts(res@) =~= given.take(0).filter(wanted));
    while i < all.len()
        invariant
            0 <= i <= all@.len(),
            given == texts(all@),
            wanted == (|line: Seq<char>| trimmed(line).len() > 0),
            texts(res@) == given.take(i as int).filter(wanted),
        decreases all@.len() - i,
    {
        let ghost before = res@;
        proof {
            reveal(Seq::filter);
            assert(given.take(i + 1).drop_last() == given.take(i as int));
            assert(given.take(i + 1).last() == all@[i as int]@);
        }
        if !is_blank(all[i].as_str()) {
            res.push(all[i].clone());
            assert(texts(res@) =~= texts(before).push(all@[i as int]@));
        }
        i = i + 1;
    }
    assert(given.take(i as int) == given);
    res
}

/// The first error that the lines of a report hold.
fn first_error(report: &Vec<Option<ImageLoadLine>>) -> (res: Option<String>)
    ensures
        res is Some <==> first_reported(report@) is Some,
        res is Some ==> first_reported(report@) == Some(res->0@),
{
    let mut i: usize = 0;
    assert(report@.skip(0) == report@);
    while i < report.len()
        invariant
            0 <= i <= report@.len(),
            first_reported(report@.skip(i as int)) == first_reported(report@),
        decreases report@.len() - i,
    {
        assert(report@.skip(i as int).drop_first() == report@.skip(i + 1));
        assert(report@.skip(i as int).first() == report@[i as int]);
        if let Some(line) = &report[i] {
            if let Some(error) = &line.error {
                return Some(error.clone());
            }
            if let Some(detail) = &line.error_detail {
                return Some(detail.to_text());
            }
        }
        i = i + 1;
    }
    None
}

// ---- The client ----

/// The engine behind a unix socket.
#[derive(Debug, Clone, PartialEq)]
pub struct EngineClient {
    pub socket_path: String,
}

/// What came of the replacement of a container: the id of the new one, or an error.
pub open spec fn replace_outcome(
    container: SummaryView,
    replaced: Result<Seq<char>, ErrorView>,
) -> OutcomeView {
    match replaced {
        Ok(new_id) => OutcomeView {
            container_id: container.id,
            container_name: container.name,
            new_container_id: Some(new_id),
            status: ReplaceStatus::Replaced,
            message: "container replaced successfully"@,
        },
        Err(err) => OutcomeView {
            container_id: container.id,
            container_name: container.name,
            new_container_id: None,
            status: ReplaceStatus::Failed,
            message: err.message(),
        },
    }
}

impl EngineClient {
    pub fn new(socket_path: String) -> (res: EngineClient)
        ensures
            res.socket_path@ == socket_path@,
    {
        EngineClient { socket_path }
    }

    /// The URI of a request, where its path can stand in one.
    pub fn request_uri(&self, request: &EngineRequest) -> (res: Option<String>)
        ensures
            res is Some <==> has_uri(self.socket_path@, request@.path),
            res is Some ==> res->0@ == socket_uri(self.socket_path@, request@.path),
    {
        uri_of(self.socket_path.as_str(), request.path.as_str())
    }

    /// Whether the engine loaded an image. `report` holds what each of the
    /// [`load_report_lines`] of the reply's body says, where it could be read.
    pub fn load_image_from_path(
        &self,
        reply: &EngineReply,
        report: &Vec<Option<ImageLoadLine>>,
    ) -> (res: Result<(), AppError>)
        ensures
            match res {
                Ok(_) => load_outcome(reply@, report@) is Ok,
                Err(err) => load_outcome(reply@, report@) == Err::<(), ErrorView>(err@),
            },
    {
        match reply {
            EngineReply::Failed(text) => Err(AppError::EngineRequest(text.clone())),
            EngineReply::Response { status, body } => {
                if !status.is_success() {
                    return Err(
                        refused_error("image load failed with status ", *status, body.as_slice()),
                    );
                }
                match first_error(report) {
                    Some(error) => Err(AppError::EngineResponse(error)),
                    None => Ok(()),
                }
            },
        }
    }

    /// The containers that have an id, as the reply to a list request tells.
    pub fn list_all_containers(&self, reply: &EngineReply) -> (res: Result<
        Vec<ListedContainer>,
        AppError,
    >)
        ensures
            match res {
                Ok(list) => list_outcome(reply@) == Ok::<Seq<ListedView>, ErrorView>(
                    listed_views(list@),
                ),
                Err(err) => list_outcome(reply@) == Err::<Seq<ListedView>, ErrorView>(err@),
            },
    {
        match reply {
            EngineReply::Failed(text) => Err(AppError::EngineRequest(text.clone())),
            EngineReply::Response { status, body } => {
                if !status.is_success() {
                    return Err(
                        refused_error(
                            "container list failed with status ",
                            *status,
                            body.as_slice(),
                        ),
                    );
                }
                match Json::parse_array(body.as_slice()) {
                    Ok(entries) => Ok(read_entries(&entries)),
                    Err(text) => Err(AppError::EngineResponse(text)),
                }
            },
        }
    }

    /// The containers that are to be dealt with: those whose inspection shows that they run the
    /// image, and those that could not be inspected and that the list names under the image.
    pub fn list_containers_by_image(
        &self,
        containers: Vec<InspectedContainer>,
        image_ref: &str,
    ) -> (res: Vec<InspectedContainer>)
        ensures
            inspected_views(res@) == containers_by_image(inspected_views(containers@), image_ref@),
    {
        let ghost given = containers@;
        let mut res: Vec<InspectedContainer> = Vec::new();
        assert(inspected_views(res@) =~= containers_by_image(
            inspected_views(given.take(0)),
            image_ref@,
        ));
        for container in it: containers
            invariant
                it.seq() == given,
                inspected_views(res@) == containers_by_image(
                    inspected_views(given.take(it.index())),
                    image_ref@,
                ),
        {
            let ghost before = res@;
            let ghost views = inspected_views(given.take(it.index() + 1));
            assert(views.drop_last() == inspected_views(given.take(it.index())));
            assert(views.last() == container@);
            let wanted = match &container.inspect {
                Ok(inspect) => is_running(inspect, image_ref),
                Err(_) => match &container.listed_image {
                    Some(image) => str_eq(image.as_str(), image_ref),
                    None => false,
                },
            };
            if wanted {
                res.push(container);
                assert(inspected_views(res@) =~= inspected_views(before).push(container@));
            }
        }
        assert(given.take(given.len() as int) == given);
        res
    }

    /// What came of the replacement of a container: the id of the new one, or an error.
    pub fn replace_container(
        &self,
        container: &ContainerSummary,
        replaced: Result<String, AppError>,
    ) -> (res: ContainerReplaceOutcome)
        ensures
            res@ == replace_outcome(container@, outcome(replaced)),
    {
        match replaced {
            Ok(new_id) => ContainerReplaceOutcome {
                container_id: container.id.clone(),
                container_name: container.name.clone(),
                new_container_id: Some(new_id),
                status: ReplaceStatus::Replaced,
                message: "container replaced successfully".to_owned(),
            },
            Err(err) => ContainerReplaceOutcome {
                container_id: container.id.clone(),
                container_name: container.name.clone(),
                new_container_id: None,
                status: ReplaceStatus::Failed,
                message: err.to_string(),
            },
        }
    }
}

// ---- Laws ----

/// Every listed container with an `Id` is considered, whatever the list says of its image, and no
/// other one.
pub proof fn law_lists_every_container(entries: Seq<JsonView>, container: ListedView)
    ensures
        listed_containers(entries).contains(container) <==> exists|i: int|
            0 <= i < entries.len() && listed_container(#[trigger] entries[i]) == Some(container),
    decreases entries.len(),
{
    if entries.len() > 0 {
        let rest = entries.drop_last();
        let earlier = listed_containers(rest);
        let all = listed_containers(entries);
        law_lists_every_container(rest, container);
        let last = entries.len() - 1;
        if all.contains(container) {
            let k = choose|k: int| 0 <= k < all.len() && all[k] == container;
            if k < earlier.len() {
                assert(earlier[k] == container);
                let i = choose|i: int|
                    0 <= i < rest.len() && listed_container(#[trigger] rest[i]) == Some(container);
                assert(entries[i] == rest[i]);
            } else {
                assert(listed_container(entries[last]) == Some(container));
            }
        }
        if exists|i: int|
            0 <= i < entries.len() && listed_container(#[trigger] entries[i]) == Some(container) {
            let i = choose|i: int|
                0 <= i < entries.len() && listed_container(#[trigger] entries[i]) == Some(
                    container,
                );
            if i < last {
                assert(rest[i] == entries[i]);
                let k = choose|k: int| 0 <= k < earlier.len() && earlier[k] == container;
                assert(all[k] == container);
            } else {
                assert(all[earlier.len() as int] == container);
            }
        }
    }
}

/// A container that could be inspected is selected exactly where its `Config.Image` is the image's
/// name; one that could not be inspected is selected exactly where the list names it under the
/// image.
pub proof fn law_selects_exact_matches(
    containers: Seq<InspectedView>,
    image_ref: Seq<char>,
    container: InspectedView,
)
    ensures
        containers_by_image(containers, image_ref).contains(container) <==> {
            &&& containers.contains(container)
            &&& container.inspect is Ok ==> runs_image(container.inspect->Ok_0, image_ref)
            &&& container.inspect is Err ==> container.listed_image == Some(image_ref)
        },
    decreases containers.len(),
{
    if containers.len() > 0 {
        let rest = containers.drop_last();
        let earlier = containers_by_image(rest, image_ref);
        let all = containers_by_image(containers, image_ref);
        let last = containers.len() - 1;
        law_selects_exact_matches(rest, image_ref, container);
        if all.contains(container) {
            let k = choose|k: int| 0 <= k < all.len() && all[k] == container;
            if k < earlier.len() {
                assert(earlier[k] == container);
                let i = choose|i: int| 0 <= i < rest.len() && rest[i] == container;
                assert(containers[i] == container);
            } else {
                assert(containers[last] == container);
            }
        }
        if containers.contains(container) && concerns(container, image_ref) {
            let i = choose|i: int| 0 <= i < containers.len() && containers[i] == container;
            if i < last {
                assert(rest[i] == container);
                let k = choose|k: int| 0 <= k < earlier.len() && earlier[k] == container;
                assert(all[k] == container);
            } else {
                assert(all[earlier.len() as int] == container);
            }
        }
    }
}

/// The summaries of the containers that the list names under the image and that have an id, in
/// their order.
pub open spec fn named_summaries(entries: Seq<JsonView>, image_ref: Seq<char>) -> Seq<SummaryView>
    decreases entries.len(),
{
    if entries.len() == 0 {
        seq![]
    } else {
        let earlier = named_summaries(entries.drop_last(), image_ref);
        match listed_container(entries.last()) {
            Some(container) => if container.image == Some(image_ref) {
                earlier.push(container.summary)
            } else {
                earlier
            },
            None => earlier,
        }
    }
}

/// The summaries of inspected containers.
pub open spec fn summaries(containers: Seq<InspectedView>) -> Seq<SummaryView> {
    containers.map_values(|container: InspectedView| container.summary)
}

/// Where the list names every container under its own image, that is, where no inspection that was
/// answered says otherwise, exactly the containers that it names under the image are selected, in
/// their order, whichever inspections fail.
pub proof fn law_truthful_list_decides(
    entries: Seq<JsonView>,
    containers: Seq<InspectedView>,
    image_ref: Seq<char>,
)
    requires
        containers.len() == listed_containers(entries).len(),
        forall|i: int|
            0 <= i < containers.len() ==> (#[trigger] containers[i]) == listed_containers(
                entries,
            )[i].inspected(containers[i].inspect),
        forall|i: int|
            0 <= i < containers.len() && (#[trigger] containers[i]).inspect is Ok ==> (runs_image(
                containers[i].inspect->Ok_0,
                image_ref,
            ) <==> containers[i].listed_image == Some(image_ref)),
    ensures
        summaries(containers_by_image(containers, image_ref)) == named_summaries(
            entries,
            image_ref,
        ),
    decreases entries.len(),
{
    if entries.len() == 0 {
        assert(summaries(containers_by_image(containers, image_ref)) =~= seq![]);
    } else {
        let rest = entries.drop_last();
        let listed = listed_containers(entries);
        if listed_container(entries.last()) is Some {
            let before = containers.drop_last();
            let last = containers.last();
            assert(last == containers[containers.len() - 1]);
            assert(listed.last() == listed_container(entries.last())->0);
            assert forall|i: int| 0 <= i < before.len() implies (#[trigger] before[i])
                == listed_containers(rest)[i].inspected(before[i].inspect) by {
                assert(before[i] == containers[i]);
                assert(listed[i] == listed_containers(rest)[i]);
            }
            assert forall|i: int|
                0 <= i < before.len() && (#[trigger] before[i]).inspect is Ok implies (runs_image(
                before[i].inspect->Ok_0,
                image_ref,
            ) <==> before[i].listed_image == Some(image_ref)) by {
                assert(before[i] == containers[i]);
            }
            law_truthful_list_decides(rest, before, image_ref);
            let earlier = containers_by_image(before, image_ref);
            assert(summaries(earlier.push(last)) =~= summaries(earlier).push(last.summary));
        } else {
            law_truthful_list_decides(rest, containers, image_ref);
        }
    }
}

/// No field that is kept has one of the names that the description of a new container adds.
proof fn lemma_added_names_are_new()
    ensures
        !kept_fields().contains("Image"@),
        !kept_fields().contains("HostConfig"@),
        !kept_fields().contains("NetworkingConfig"@),
        "Image"@ != "HostConfig"@,
        "Image"@ != "NetworkingConfig"@,
        "HostConfig"@ != "NetworkingConfig"@,
{
    reveal_strlit("Cmd");
    reveal_strlit("Entrypoint");
    reveal_strlit("Env");
    reveal_strlit("ExposedPorts");
    reveal_strlit("Labels");
    reveal_strlit("OpenStdin");
    reveal_strlit("StdinOnce");
    reveal_strlit("Tty");
    reveal_strlit("User");
    reveal_strlit("WorkingDir");
    reveal_strlit("StopSignal");
    reveal_strlit("StopTimeout");
    reveal_strlit("AttachStderr");
    reveal_strlit("AttachStdin");
    reveal_strlit("AttachStdout");
    reveal_strlit("Image");
    reveal_strlit("HostConfig");
    reveal_strlit("NetworkingConfig");
    assert forall|i: int| 0 <= i < kept_fields().len() implies {
        &&& #[trigger] kept_fields()[i][0] != 'I'
        &&& kept_fields()[i][0] != 'H'
        &&& kept_fields()[i][0] != 'N'
    } by {}
    assert("Image"@[0] == 'I');
    assert("HostConfig"@[0] == 'H');
    assert("NetworkingConfig"@[0] == 'N');
}

/// The names of the fields that describe how a container runs, and not which image or on which host
/// and networks.
pub open spec fn describes_the_process(name: Seq<char>) -> bool {
    ||| name == "Cmd"@ || name == "Entrypoint"@ || name == "Env"@ || name == "Labels"@
    ||| name == "User"@ || name == "WorkingDir"@ || name == "ExposedPorts"@
    ||| name == "Tty"@ || name == "OpenStdin"@ || name == "StdinOnce"@
    ||| name == "AttachStdin"@ || name == "AttachStdout"@ || name == "AttachStderr"@
    ||| name == "StopSignal"@ || name == "StopTimeout"@
}

proof fn lemma_kept_fields(name: Seq<char>)
    ensures
        kept_fields().contains(name) <==> describes_the_process(name),
{
    let fields = kept_fields();
    assert(fields[0] == "Cmd"@ && fields[1] == "Entrypoint"@ && fields[2] == "Env"@);
    assert(fields[3] == "ExposedPorts"@ && fields[4] == "Labels"@ && fields[5] == "OpenStdin"@);
    assert(fields[6] == "StdinOnce"@ && fields[7] == "Tty"@ && fields[8] == "User"@);
    assert(fields[9] == "WorkingDir"@ && fields[10] == "StopSignal"@);
    assert(fields[11] == "StopTimeout"@ && fields[12] == "AttachStderr"@);
    assert(fields[13] == "AttachStdin"@ && fields[14] == "AttachStdout"@);
}

/// A container is described for its replacement exactly where the inspection gives a configuration
/// that is an object. Whatever else was inspected, the description then names the given image, has
/// the host configuration of the old container, or an empty one where it has none, has its networks
/// as the endpoints of the new one, or none, has the fields of the configuration that describe the
/// process, and holds nothing else.
pub proof fn law_payload_keeps_configuration(inspect: JsonView, image_ref: Seq<char>)
    ensures
        create_payload(inspect, image_ref) is Ok <==> {
            &&& inspect.get("Config"@) is Some
            &&& inspect.get("Config"@)->0 is Object
        },
        inspect.get("Config"@) is None ==> create_payload(inspect, image_ref) == Err::<
            JsonView,
            ErrorView,
        >(ErrorView::ContainerReplace("container inspect missing Config"@)),
        inspect.get("Config"@) is Some && inspect.get("Config"@)->0 !is Object ==> create_payload(
            inspect,
            image_ref,
        ) == Err::<JsonView, ErrorView>(
            ErrorView::ContainerReplace("container Config is not an object"@),
        ),
        create_payload(inspect, image_ref) is Ok ==> {
            let payload = create_payload(inspect, image_ref)->Ok_0;
            let config = inspect.get("Config"@)->0;
            &&& payload.get("Image"@) == Some(JsonView::Text(image_ref))
            &&& inspect.get("HostConfig"@) is Some ==> payload.get("HostConfig"@) == inspect.get(
                "HostConfig"@,
            )
            &&& inspect.get("HostConfig"@) is None ==> payload.get("HostConfig"@) == Some(
                JsonView::Object(Map::empty()),
            )
            &&& forall|name: Seq<char>|
                describes_the_process(name) ==> #[trigger] payload.get(name) == config.get(name)
            &&& forall|name: Seq<char>|
                !describes_the_process(name) && name != "Image"@ && name != "HostConfig"@ && name
                    != "NetworkingConfig"@ ==> #[trigger] payload.get(name) is None
        },
{
    lemma_added_names_are_new();
    assert forall|name: Seq<char>| kept_fields().contains(name) <==> #[trigger]
        describes_the_process(name) by {
        lemma_kept_fields(name);
    }
}

/// The networks of a described container are those of the inspected one, under the name of the
/// endpoints and with nothing beside them; where none were inspected, there is nothing there.
pub proof fn law_payload_keeps_networks(
    inspect: JsonView,
    image_ref: Seq<char>,
    name: Seq<char>,
)
    requires
        create_payload(inspect, image_ref) is Ok,
    ensures
        create_payload(inspect, image_ref)->Ok_0.get("NetworkingConfig"@) is Some,
        ({
            let networking = create_payload(inspect, image_ref)->Ok_0.get("NetworkingConfig"@)->0;
            let settings = inspect.get("NetworkSettings"@);
            &&& networking is Object
            &&& settings is Some && settings->0.get("Networks"@) is Some ==> networking.get(
                "EndpointsConfig"@,
            ) == settings->0.get("Networks"@)
            &&& settings is None || settings->0.get("Networks"@) is None ==> networking.get(
                "EndpointsConfig"@,
            ) is None
            &&& name != "EndpointsConfig"@ ==> networking.get(name) is None
        }),
{
    lemma_added_names_are_new();
}

/// The description of a container depends on its configuration, its host configuration and its
/// networks alone: two inspections that agree on these give the same description.
pub proof fn law_payload_depends_on_three_members(
    first: JsonView,
    second: JsonView,
    image_ref: Seq<char>,
)
    requires
        first.get("Config"@) == second.get("Config"@),
        first.get("HostConfig"@) == second.get("HostConfig"@),
        first.get("NetworkSettings"@) == second.get("NetworkSettings"@),
    ensures
        create_payload(first, image_ref) == create_payload(second, image_ref),
{
}

/// Whatever goes wrong at the engine, and whatever keeps a container from being described, is
/// answered with the status 502.
pub proof fn law_engine_errors_are_bad_gateway(
    reply: ReplyView,
    image_ref: Seq<char>,
    report: Seq<Option<ImageLoadLine>>,
    inspect: JsonView,
)
    ensures
        json_outcome(reply) is Err ==> json_outcome(reply)->Err_0.status() == 502,
        empty_outcome(reply) is Err ==> empty_outcome(reply)->Err_0.status() == 502,
        list_outcome(reply) is Err ==> list_outcome(reply)->Err_0.status() == 502,
        load_outcome(reply, report) is Err ==> load_outcome(reply, report)->Err_0.status() == 502,
        create_payload(inspect, image_ref) is Err ==> create_payload(
            inspect,
            image_ref,
        )->Err_0.status() == 502,
{
}

proof fn lemma_first_reported(report: Seq<Option<ImageLoadLine>>)
    ensures
        first_reported(report) is None <==> forall|i: int|
            0 <= i < report.len() ==> ((#[trigger] report[i]) is None || report[i]->0.reported()
                is None),
    decreases report.len(),
{
    if report.len() > 0 {
        let rest = report.drop_first();
        lemma_first_reported(rest);
        if forall|i: int|
            0 <= i < report.len() ==> ((#[trigger] report[i]) is None || report[i]->0.reported()
                is None) {
            assert forall|i: int| 0 <= i < rest.len() implies ((#[trigger] rest[i]) is None
                || rest[i]->0.reported() is None) by {
                assert(rest[i] == report[i + 1]);
            }
        }
        if first_reported(report) is None {
            assert forall|i: int| 0 <= i < report.len() implies ((#[trigger] report[i]) is None
                || report[i]->0.reported() is None) by {
                if i > 0 {
                    assert(report[i] == rest[i - 1]);
                }
            }
        }
    }
}

/// A line tells of no error: it could not be read, or it has neither an error nor a detail of one.
pub open spec fn is_silent(line: Option<ImageLoadLine>) -> bool {
    line is None || (line->0.error is None && line->0.error_detail is None)
}

/// An image counts as loaded exactly where the engine replies, with a status of success, and each
/// line of its report that could be read has neither an error nor a detail of one.
pub proof fn law_loaded_exactly_without_error(reply: ReplyView, report: Seq<Option<ImageLoadLine>>)
    ensures
        load_outcome(reply, report) is Ok <==> {
            &&& reply is Response
            &&& 200 <= reply->status <= 299
            &&& forall|i: int| 0 <= i < report.len() ==> is_silent(#[trigger] report[i])
        },
{
    lemma_first_reported(report);
    if load_outcome(reply, report) is Ok {
        assert forall|i: int| 0 <= i < report.len() implies is_silent(#[trigger] report[i]) by {
            assert(report[i] is None || report[i]->0.reported() is None);
        }
    }
    if forall|i: int| 0 <= i < report.len() ==> is_silent(#[trigger] report[i]) {
        assert forall|i: int| 0 <= i < report.len() implies ((#[trigger] report[i]) is None
            || report[i]->0.reported() is None) by {
            assert(is_silent(report[i]));
        }
    }
}

proof fn lemma_first_is_reported(
    before: Seq<Option<ImageLoadLine>>,
    line: ImageLoadLine,
    after: Seq<Option<ImageLoadLine>>,
)
    requires
        forall|i: int| 0 <= i < before.len() ==> is_silent(#[trigger] before[i]),
        line.reported() is Some,
    ensures
        first_reported(before + seq![Some(line)] + after) == line.reported(),
    decreases before.len(),
{
    let report = before + seq![Some(line)] + after;
    if before.len() > 0 {
        let shorter = before.drop_first();
        assert forall|i: int| 0 <= i < shorter.len() implies is_silent(#[trigger] shorter[i]) by {
            assert(shorter[i] == before[i + 1]);
        }
        lemma_first_is_reported(shorter, line, after);
        assert(report.first() == before[0]);
        assert(is_silent(before[0]));
        assert(report.drop_first() =~= shorter + seq![Some(line)] + after);
    } else {
        assert(report.first() == Some(line));
    }
}

/// Where the engine replies with a status of success, the first line of the report that tells of an
/// error decides, whatever follows it: its error is passed on as it is, with or without a detail,
/// and where it has none, the JSON text of its detail.
pub proof fn law_first_error_is_passed_on(
    status: u16,
    body: Seq<u8>,
    before: Seq<Option<ImageLoadLine>>,
    line: ImageLoadLine,
    after: Seq<Option<ImageLoadLine>>,
)
    requires
        200 <= status <= 299,
        forall|i: int| 0 <= i < before.len() ==> is_silent(#[trigger] before[i]),
        !is_silent(Some(line)),
    ensures
        line.error is Some ==> load_outcome(
            ReplyView::Response { status, body },
            before + seq![Some(line)] + after,
        ) == Err::<(), ErrorView>(ErrorView::EngineResponse(line.error->0@)),
        line.error is None ==> load_outcome(
            ReplyView::Response { status, body },
            before + seq![Some(line)] + after,
        ) == Err::<(), ErrorView>(ErrorView::EngineResponse(json_text(line.error_detail->0@))),
{
    lemma_first_is_reported(before, line, after);
}

/// A line of a report is handed on where something but white space stands in it, without the line
/// feed, and the carriage return, that ends it; the lines of the rest follow.
pub proof fn law_report_lines_follow_each_other(line: Seq<char>, rest: Seq<char>)
    requires
        !line.contains('\n'),
    ensures
        ({
            let first = if forall|i: int|
                0 <= i < line.len() ==> is_white_space(#[trigger] line[i]) {
                Seq::<Seq<char>>::empty()
            } else {
                seq![line]
            };
            &&& report_lines(line + seq!['\r', '\n'] + rest) == first + report_lines(rest)
            &&& line.len() == 0 || line[line.len() - 1] != '\r' ==> report_lines(
                line + seq!['\n'] + rest,
            ) == first + report_lines(rest)
            &&& report_lines(line) == first
        }),
{
    let wanted = |l: Seq<char>| trimmed(l).len() > 0;
    let one = seq![line];
    law_lines_end_at_feeds(line, rest);
    Seq::filter_distributes_over_add(one, lines_of(rest), wanted);
    let blank = forall|i: int| 0 <= i < line.len() ==> is_white_space(#[trigger] line[i]);
    if blank {
        law_trim_cuts_white_space_only(line, seq![], seq![]);
        assert(line + seq![] + seq![] =~= line);
    } else {
        let (a, b) = law_trim_leaves_a_part(line);
        if trimmed(line).len() == 0 {
            assert(line =~= a + b);
            assert forall|i: int| 0 <= i < line.len() implies is_white_space(
                #[trigger] line[i],
            ) by {
                if i < a.len() {
                    assert(line[i] == a[i]);
                } else {
                    assert(line[i] == b[i - a.len()]);
                }
            }
        }
    }
    reveal_with_fuel(Seq::filter, 2);
    assert(one.drop_last() =~= Seq::<Seq<char>>::empty());
    assert(one.last() == line);
    assert(wanted(line) <==> !blank);
    assert(Seq::<Seq<char>>::empty().filter(wanted) =~= Seq::<Seq<char>>::empty());
    assert(Seq::<Seq<char>>::empty().push(line) =~= one);
    assert(one.filter(wanted) =~= if blank {
        Seq::<Seq<char>>::empty()
    } else {
        one
    });
    if line.len() == 0 {
        assert(line =~= Seq::<char>::empty());
        assert(report_lines(line) =~= seq![]);
    }
}

/// What the replies of the engine mean. A request that failed gives its reason. A document is
/// expected with a status of success, and none with 204. An acknowledgement is a status of success
/// or 304. Any other status is an error that tells where it came from, the status and the text of
/// the body.
pub proof fn law_replies_are_understood(
    reason: Seq<char>,
    status: u16,
    body: Seq<u8>,
    report: Seq<Option<ImageLoadLine>>,
)
    ensures
        json_outcome(ReplyView::Failed(reason)) == Err::<JsonView, ErrorView>(
            ErrorView::EngineRequest(reason),
        ),
        empty_outcome(ReplyView::Failed(reason)) == Err::<(), ErrorView>(
            ErrorView::EngineRequest(reason),
        ),
        list_outcome(ReplyView::Failed(reason)) == Err::<Seq<ListedView>, ErrorView>(
            ErrorView::EngineRequest(reason),
        ),
        load_outcome(ReplyView::Failed(reason), report) == Err::<(), ErrorView>(
            ErrorView::EngineRequest(reason),
        ),
        ({
            let reply = ReplyView::Response { status, body };
            let told = status_line(status) + ": "@ + quoted(body);
            let success = status / 100 == 2;
            &&& status == 204 ==> json_outcome(reply) == Ok::<JsonView, ErrorView>(JsonView::Null)
            &&& success && status != 204 && parsed_json(body) is Ok ==> json_outcome(reply) == Ok::<
                JsonView,
                ErrorView,
            >(parsed_json(body)->Ok_0)
            &&& success && status != 204 && parsed_json(body) is Err ==> json_outcome(reply)
                == Err::<JsonView, ErrorView>(
                ErrorView::EngineResponse(parsed_json(body)->Err_0),
            )
            &&& !success ==> json_outcome(reply) == Err::<JsonView, ErrorView>(
                ErrorView::EngineResponse("status "@ + told),
            )
            &&& empty_outcome(reply) is Ok <==> (success || status == 304)
            &&& empty_outcome(reply) is Err ==> empty_outcome(reply)->Err_0
                == ErrorView::EngineResponse("status "@ + told)
            &&& !success ==> list_outcome(reply) == Err::<Seq<ListedView>, ErrorView>(
                ErrorView::EngineResponse("container list failed with status "@ + told),
            )
            &&& success && parsed_json_array(body) is Err ==> list_outcome(reply) == Err::<
                Seq<ListedView>,
                ErrorView,
            >(ErrorView::EngineResponse(parsed_json_array(body)->Err_0))
            &&& success && parsed_json_array(body) is Ok ==> list_outcome(reply) == Ok::<
                Seq<ListedView>,
                ErrorView,
            >(listed_containers(parsed_json_array(body)->Ok_0))
            &&& !success ==> load_outcome(reply, report) == Err::<(), ErrorView>(
                ErrorView::EngineResponse("image load failed with status "@ + told),
            )
        }),
{
    let told = status_line(status) + ": "@ + quoted(body);
    assert("status "@ + told =~= refusal("status "@, status_line(status), quoted(body)));
    assert("container list failed with status "@ + told =~= refusal(
        "container list failed with status "@,
        status_line(status),
        quoted(body),
    ));
    assert("image load failed with status "@ + told =~= refusal(
        "image load failed with status "@,
        status_line(status),
        quoted(body),
    ));
}

/// Two lists of entries one after the other give the containers of the first and then those of the
/// second: what an entry gives depends on nothing but itself.
pub proof fn law_entries_are_read_one_by_one(first: Seq<JsonView>, second: Seq<JsonView>)
    ensures
        listed_containers(first + second) == listed_containers(first) + listed_containers(second),
    decreases second.len(),
{
    if second.len() > 0 {
        law_entries_are_read_one_by_one(first, second.drop_last());
        assert((first + second).drop_last() =~= first + second.drop_last());
        assert((first + second).last() == second.last());
        assert(listed_containers(first + second) =~= listed_containers(first) + listed_containers(
            second,
        ));
    } else {
        assert(first + second =~= first);
        assert(listed_containers(first) + listed_containers(second) =~= listed_containers(first));
    }
}

/// An entry of the list gives a container exactly where its `Id` is a text. Whatever its other
/// members are, the container has this id, and the text of `Image` as its image, if there is one.
/// Its name is the first of the texts in `Names` without the slashes before it, and empty where
/// there is none.
pub proof fn law_entry_gives_its_container(entry: JsonView, slashes: Seq<char>, name: Seq<char>)
    requires
        forall|i: int| 0 <= i < slashes.len() ==> #[trigger] slashes[i] == '/',
        name.len() > 0 ==> name[0] != '/',
    ensures
        entry.get_text("Id"@) is None ==> listed_containers(seq![entry]).len() == 0,
        entry.get_text("Id"@) is Some ==> {
            let listed = listed_containers(seq![entry]);
            let names = entry.get("Names"@);
            &&& listed.len() == 1
            &&& listed[0].summary.id == entry.get_text("Id"@)->0
            &&& listed[0].image == entry.get_text("Image"@)
            &&& names is Some && names->0.first() == Some(JsonView::Text(slashes + name))
                ==> listed[0].summary.name == name
            &&& names is None || names->0.first() is None || names->0.first()->0 !is Text
                ==> listed[0].summary.name.len() == 0
        },
{
    reveal_with_fuel(listed_containers, 2);
    assert(seq![entry].drop_last() =~= seq![]);
    law_leading_run_is_cut(slashes, name, '/');
    reveal_strlit("");
    law_leading_run_is_cut(seq![], ""@, '/');
    assert(Seq::<char>::empty() + ""@ =~= ""@);
}

/// Two lists of inspected containers one after the other give what is selected from the first and
/// then what is selected from the second: whether a container is selected depends on nothing but
/// itself.
pub proof fn law_containers_are_selected_one_by_one(
    first: Seq<InspectedView>,
    second: Seq<InspectedView>,
    image_ref: Seq<char>,
)
    ensures
        containers_by_image(first + second, image_ref) == containers_by_image(first, image_ref)
            + containers_by_image(second, image_ref),
    decreases second.len(),
{
    if second.len() > 0 {
        law_containers_are_selected_one_by_one(first, second.drop_last(), image_ref);
        assert((first + second).drop_last() =~= first + second.drop_last());
        assert((first + second).last() == second.last());
        assert(containers_by_image(first + second, image_ref) =~= containers_by_image(
            first,
            image_ref,
        ) + containers_by_image(second, image_ref));
    } else {
        assert(first + second =~= first);
        assert(containers_by_image(first, image_ref) + containers_by_image(second, image_ref)
            =~= containers_by_image(first, image_ref));
    }
}

/// A container is selected, unchanged, exactly where the `Image` of the inspected `Config` is the
/// text of the image, whatever else was inspected or listed; where the inspection failed, exactly
/// where the list names it under the image.
pub proof fn law_selection_of_one(container: InspectedView, image_ref: Seq<char>)
    ensures
        ({
            let chosen = containers_by_image(seq![container], image_ref);
            let config = container.inspect->Ok_0.get("Config"@);
            &&& chosen == seq![container] || chosen.len() == 0
            &&& container.inspect is Ok ==> (chosen.len() == 1 <==> (config is Some
                && config->0.get("Image"@) == Some(JsonView::Text(image_ref))))
            &&& container.inspect is Err ==> (chosen.len() == 1 <==> container.listed_image
                == Some(image_ref))
        }),
{
    reveal_with_fuel(containers_by_image, 2);
    assert(seq![container].drop_last() =~= seq![]);
    assert(Seq::<InspectedView>::empty().push(container) =~= seq![container]);
}

/// The outcome of a replacement tells of the container that was to be replaced. Where there is a new
/// one, it carries its id and says that the container was replaced; where not, it says that the
/// replacement failed and carries the wording of the error.
pub proof fn law_outcome_tells_of_the_replacement(
    container: SummaryView,
    new_id: Seq<char>,
    error: ErrorView,
)
    ensures
        ({
            let done = replace_outcome(container, Ok(new_id));
            &&& done.container_id == container.id
            &&& done.container_name == container.name
            &&& done.new_container_id == Some(new_id)
            &&& done.status is Replaced
            &&& done.message == "container replaced successfully"@
        }),
        ({
            let failed = replace_outcome(container, Err(error));
            &&& failed.container_id == container.id
            &&& failed.container_name == container.name
            &&& failed.new_container_id is None
            &&& failed.status is Failed
            &&& failed.message == error.message()
        }),
{
}

/// How the engine is asked. A request about a container goes to the path of its id, whichever id it
/// is, and a name goes into the query in its percent-encoded form. Only an archive and a description
/// are sent as a body, each as it is and with its type.
pub proof fn law_requests_are_addressed_to_the_container(
    id: Seq<char>,
    name: Seq<char>,
    payload: JsonView,
    tar: Seq<u8>,
)
    ensures
        ({
            let path = "/containers/"@ + id;
            let query = percent_encoded(encode_utf8(name));
            &&& inspect_request(id).method is Get
            &&& inspect_request(id).path == path + "/json"@
            &&& stop_request(id).method is Post
            &&& stop_request(id).path == path + "/stop?t=10"@
            &&& start_request(id).method is Post
            &&& start_request(id).path == path + "/start"@
            &&& remove_request(id, false).method is Delete
            &&& remove_request(id, false).path == path + "?force="@ + "0"@
            &&& remove_request(id, true).method is Delete
            &&& remove_request(id, true).path == path + "?force="@ + "1"@
            &&& rename_request(id, name).method is Post
            &&& rename_request(id, name).path == path + "/rename?name="@ + query
            &&& create_request(name, payload).method is Post
            &&& create_request(name, payload).path == "/containers/create?name="@ + query
            &&& create_request(name, payload).content_type == Some("application/json"@)
            &&& create_request(name, payload).body == encode_utf8(json_text(payload))
            &&& list_request().method is Get
            &&& list_request().path == "/containers/json?all=1"@
            &&& load_request(tar).method is Post
            &&& load_request(tar).path == "/images/load?quiet=1"@
            &&& load_request(tar).content_type == Some("application/x-tar"@)
            &&& load_request(tar).body == tar
            &&& forall|request: RequestView|
                {
                    ||| request == inspect_request(id)
                    ||| request == stop_request(id)
                    ||| request == start_request(id)
                    ||| request == remove_request(id, false)
                    ||| request == remove_request(id, true)
                    ||| request == rename_request(id, name)
                    ||| request == list_request()
                } ==> (#[trigger] request.body).len() == 0 && request.content_type is None
        }),
{
}

/// What the values of the engine say is what stands in their fields.
pub proof fn law_values_say_what_they_hold(
    request: EngineRequest,
    summary: ContainerSummary,
    listed: ListedContainer,
    inspected: InspectedContainer,
    result: ContainerReplaceOutcome,
    status: StatusCode,
    body: Vec<u8>,
    reason: String,
)
    ensures
        request@.method == request.method,
        request@.path == request.path@,
        request.content_type is Some ==> request@.content_type == Some(request.content_type->0@),
        request.content_type is None ==> request@.content_type is None,
        request@.body == request.body@,
        summary@.id == summary.id@,
        summary@.name == summary.name@,
        listed@.summary == listed.summary@,
        listed.image is Some ==> listed@.image == Some(listed.image->0@),
        listed.image is None ==> listed@.image is None,
        inspected@.summary == inspected.summary@,
        inspected.listed_image is Some ==> inspected@.listed_image == Some(
            inspected.listed_image->0@,
        ),
        inspected.listed_image is None ==> inspected@.listed_image is None,
        inspected.inspect is Ok ==> inspected@.inspect == Ok::<JsonView, ErrorView>(
            inspected.inspect->Ok_0@,
        ),
        inspected.inspect is Err ==> inspected@.inspect == Err::<JsonView, ErrorView>(
            inspected.inspect->Err_0@,
        ),
        result@.container_id == result.container_id@,
        result@.container_name == result.container_name@,
        result.new_container_id is Some ==> result@.new_container_id == Some(
            result.new_container_id->0@,
        ),
        result.new_container_id is None ==> result@.new_container_id is None,
        result@.status == result.status,
        result@.message == result.message@,
        (EngineReply::Response { status, body })@ == (ReplyView::Response {
            status: status@,
            body: body@,
        }),
        EngineReply::Failed(reason)@ == ReplyView::Failed(reason@),
{
}

/// What the values of a list say is what each of them says, in their order.
pub proof fn law_lists_say_what_they_hold(
    listed: Seq<ListedContainer>,
    inspected: Seq<InspectedContainer>,
    results: Seq<ContainerReplaceOutcome>,
    i: int,
)
    ensures
        listed_views(listed).len() == listed.len(),
        0 <= i < listed.len() ==> listed_views(listed)[i] == listed[i]@,
        inspected_views(inspected).len() == inspected.len(),
        0 <= i < inspected.len() ==> inspected_views(inspected)[i] == inspected[i]@,
        outcome_views(results).len() == results.len(),
        0 <= i < results.len() ==> outcome_views(results)[i] == results[i]@,
{
}

/// The text holds nothing but plain characters and question marks.
spec fn is_simple(text: Seq<char>) -> bool {
    forall|i: int| 0 <= i < text.len() ==> (is_plain(#[trigger] text[i]) || text[i] == '?')
}

proof fn lemma_simple_parts(first: Seq<char>, second: Seq<char>)
    requires
        is_simple(first),
        is_simple(second),
    ensures
        is_simple(first + second),
{
}

/// The fixed parts of the paths.
proof fn lemma_fixed_parts()
    ensures
        is_simple("/containers/"@),
        "/containers/"@.len() > 0,
        "/containers/"@[0] == '/',
        is_simple("/json"@),
        is_simple("/stop?t=10"@),
        is_simple("/start"@),
        is_simple("?force="@),
        is_simple("0"@),
        is_simple("1"@),
        is_simple("/rename?name="@),
        is_simple("/containers/create?name="@),
        "/containers/create?name="@.len() > 0,
        "/containers/create?name="@[0] == '/',
        is_simple("/containers/json?all=1"@),
        "/containers/json?all=1"@.len() > 0,
        "/containers/json?all=1"@[0] == '/',
        is_simple("/images/load?quiet=1"@),
        "/images/load?quiet=1"@.len() > 0,
        "/images/load?quiet=1"@[0] == '/',
{
    reveal_strlit("/containers/");
    reveal_strlit("/json");
    reveal_strlit("/stop?t=10");
    reveal_strlit("/start");
    reveal_strlit("?force=");
    reveal_strlit("0");
    reveal_strlit("1");
    reveal_strlit("/rename?name=");
    reveal_strlit("/containers/create?name=");
    reveal_strlit("/containers/json?all=1");
    reveal_strlit("/images/load?quiet=1");
}

/// The paths of all requests about a container with a plain id, whatever its name, and those of
/// the two requests about none, can stand in a URI, and all of each is kept there.
pub proof fn law_requests_can_be_addressed(
    id: Seq<char>,
    name: Seq<char>,
    payload: JsonView,
    tar: Seq<u8>,
    force: bool,
)
    requires
        forall|i: int| 0 <= i < id.len() ==> is_plain(#[trigger] id[i]),
    ensures
        forall|request: RequestView|
            {
                ||| request == load_request(tar)
                ||| request == list_request()
                ||| request == inspect_request(id)
                ||| request == create_request(name, payload)
                ||| request == stop_request(id)
                ||| request == start_request(id)
                ||| request == remove_request(id, force)
                ||| request == rename_request(id, name)
            } ==> is_target(#[trigger] request.path) && before(request.path, '#') == request.path,
{
    lemma_fixed_parts();
    let encoded = percent_encoded(encode_utf8(name));
    law_encoded_text_is_plain(encode_utf8(name));
    assert(is_simple(encoded));
    assert(is_simple(id));
    let start = "/containers/"@;
    lemma_simple_parts(start, id);
    lemma_simple_parts(start + id, "/json"@);
    lemma_simple_parts(start + id, "/stop?t=10"@);
    lemma_simple_parts(start + id, "/start"@);
    lemma_simple_parts(start + id, "?force="@);
    lemma_simple_parts(start + id + "?force="@, "0"@);
    lemma_simple_parts(start + id + "?force="@, "1"@);
    lemma_simple_parts(start + id, "/rename?name="@);
    lemma_simple_parts(start + id + "/rename?name="@, encoded);
    lemma_simple_parts("/containers/create?name="@, encoded);
    law_plain_paths_are_kept(load_request(tar).path);
    law_plain_paths_are_kept(list_request().path);
    law_plain_paths_are_kept(inspect_request(id).path);
    law_plain_paths_are_kept(create_request(name, payload).path);
    law_plain_paths_are_kept(stop_request(id).path);
    law_plain_paths_are_kept(start_request(id).path);
    law_plain_paths_are_kept(remove_request(id, force).path);
    law_plain_paths_are_kept(rename_request(id, name).path);
}

} // verus!
