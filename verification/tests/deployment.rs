use hachimi_deployer::config::{
    AppConfig, EngineConfig, RawConfig, RawImagePolicy, ServerConfig,
};
use hachimi_deployer::deployment::{
    new_upload_file_name, upload_file_name, Action, Deployment, Event,
};
use hachimi_deployer::engine::{EngineClient, EngineReply, ReplaceStatus};
use hachimi_deployer::error::AppError;
use hachimi_deployer::status::StatusCode;

fn engine() -> EngineClient {
    EngineClient::new("/run/engine.sock".to_owned())
}

fn start() -> Deployment {
    Deployment::start("trace".to_owned(), "app:prod".to_owned())
}

fn after(state: Deployment, events: Vec<Event>) -> Deployment {
    let engine = engine();
    events.into_iter().fold(state, |state, event| {
        assert!(state.has_room_for(&event));
        state.step(&engine, event)
    })
}

fn replied(status: u16, body: &str) -> Event {
    Event::Replied(EngineReply::Response {
        status: StatusCode::from_u16(status).unwrap(),
        body: body.as_bytes().to_vec(),
    })
}

fn path(state: &Deployment) -> String {
    match state.action() {
        Action::Send(request) => request.path,
        other => panic!("{other:?}"),
    }
}

fn listing() -> Deployment {
    after(
        start(),
        vec![Event::Received(5), Event::Ended, Event::Loaded(Ok(())), Event::Deleted],
    )
}

#[test]
fn names_the_uploaded_file() {
    assert_eq!(upload_file_name("8d460b64"), "upload-8d460b64.tar");
}

#[test]
fn names_each_upload_anew() {
    let first = new_upload_file_name();
    let id = first.strip_prefix("upload-").unwrap().strip_suffix(".tar").unwrap();
    let uuid = uuid::Uuid::parse_str(id).unwrap();
    assert_eq!(uuid.get_version(), Some(uuid::Version::Random));
    assert_eq!(uuid.to_string(), id);
    assert_ne!(first, new_upload_file_name());
}

#[test]
fn starts_an_authorized_deployment() {
    let config = AppConfig::from_toml(Ok(RawConfig {
        server: ServerConfig { listen: "127.0.0.1:3000".to_owned() },
        engine: EngineConfig { socket_path: "/run/engine.sock".to_owned() },
        images: vec![RawImagePolicy {
            image_ref: "app:prod".to_owned(),
            bearer_token: "secret".to_owned(),
        }],
    }))
    .ok()
    .unwrap();
    let state =
        Deployment::deploy_image(&config, "app%3Aprod", Some(b"Bearer secret")).ok().unwrap();
    assert_eq!(state.image_ref(), "app:prod");
    let uuid = uuid::Uuid::parse_str(state.trace_id()).unwrap();
    assert_eq!(uuid.get_variant(), uuid::Variant::RFC4122);
    assert_eq!(uuid.to_string(), state.trace_id());
    assert_eq!(state.action(), Action::Receive);
    let err = Deployment::deploy_image(&config, "app%3Aprod", Some(b"Bearer x")).err().unwrap();
    assert_eq!(err, AppError::Unauthorized);
}

#[test]
fn counts_the_uploaded_bytes() {
    let state = after(
        start(),
        vec![Event::Received(3), Event::Received(0), Event::Received(40), Event::Ended],
    );
    assert_eq!(state.action(), Action::Load(43));
    assert_eq!(after(start(), vec![Event::Ended]).action(), Action::Load(0));
}

#[test]
fn knows_when_the_count_is_full() {
    let state = after(start(), vec![Event::Received(usize::MAX)]);
    assert!(!state.has_room_for(&Event::Received(usize::MAX)));
    assert!(state.has_room_for(&Event::Ended));
}

#[test]
fn ends_where_the_upload_breaks_off() {
    let state = after(start(), vec![Event::Received(3), Event::Broken]);
    assert_eq!(state.action(), Action::Answer);
    let err = state.finish().ok().unwrap().unwrap_err();
    assert_eq!(err, AppError::InvalidBody);
    assert_eq!(err.status_code().as_u16(), 400);
}

#[test]
fn ends_where_the_upload_cannot_be_written() {
    let state = after(start(), vec![Event::Unwritten("disk full".to_owned())]);
    let err = state.finish().ok().unwrap().unwrap_err();
    assert_eq!(err, AppError::ConfigRead("disk full".to_owned()));
    assert_eq!(err.status_code().as_u16(), 500);
}

#[test]
fn deletes_the_upload_after_a_failed_load() {
    let err = AppError::EngineResponse("bad tar".to_owned());
    let state = after(start(), vec![Event::Ended, Event::Loaded(Err(err.clone()))]);
    assert_eq!(state.action(), Action::Delete);
    let state = after(state, vec![Event::Ended, replied(200, "[]")]);
    assert_eq!(state.action(), Action::Delete);
    let state = after(state, vec![Event::Deleted]);
    assert_eq!(state.action(), Action::Answer);
    assert_eq!(state.finish().ok().unwrap(), Err(err));
}

#[test]
fn lists_containers_after_the_load() {
    let state = after(start(), vec![Event::Ended, Event::Loaded(Ok(()))]);
    assert_eq!(state.action(), Action::Delete);
    assert_eq!(path(&listing()), "/containers/json?all=1");
    assert!(listing().finish().is_err());
}

#[test]
fn ends_where_the_listing_fails() {
    let state = after(listing(), vec![replied(500, "x")]);
    assert_eq!(
        state.finish().ok().unwrap(),
        Err(AppError::EngineResponse(
            "container list failed with status 500 Internal Server Error: x".to_owned()
        ))
    );
}

#[test]
fn answers_where_there_is_no_container() {
    let state = after(listing(), vec![replied(200, "[]")]);
    assert_eq!(state.matched(), Some(0));
    let response = state.finish().ok().unwrap().unwrap();
    assert_eq!(response.trace_id, "trace");
    assert_eq!(response.image_ref, "app:prod");
    assert_eq!(response.bytes_received, 5);
    assert_eq!((response.replaced, response.failed), (0, 0));
    assert!(response.containers.is_empty());
}

#[test]
fn leaves_containers_of_other_images_alone() {
    let list = r#"[{"Id": "1", "Image": "app:prod"}, {"Id": "2", "Image": "app:prod"}]"#;
    let state = after(listing(), vec![replied(200, list)]);
    assert_eq!(path(&state), "/containers/1/json");
    assert_eq!(state.matched(), None);
    let state = after(state, vec![replied(200, "{\"Config\":{\"Image\":\"other\"}}")]);
    assert_eq!(path(&state), "/containers/2/json");
    let state = after(state, vec![replied(200, "{}")]);
    let response = state.finish().ok().unwrap().unwrap();
    assert!(response.containers.is_empty());
    assert_eq!(response.status_code().as_u16(), 200);
}

#[test]
fn forgets_a_container_of_another_image_that_has_gone() {
    let list = r#"[{"Id": "1", "Image": "other", "Names": ["/a"]}]"#;
    let state = after(listing(), vec![replied(200, list), replied(404, "gone")]);
    assert_eq!(state.matched(), Some(0));
    let response = state.finish().ok().unwrap().unwrap();
    assert!(response.containers.is_empty());
    assert_eq!(response.status_code().as_u16(), 200);
}

#[test]
fn takes_the_inspected_name() {
    let list = r#"[{"Id": "1", "Names": ["/listed"]}]"#;
    let inspect = "{\"Name\":\"/inspected\",\"Config\":{\"Image\":\"app:prod\"}}";
    let state = after(listing(), vec![replied(200, list)]);
    assert_eq!(state.current_name(), None);
    let state = after(state, vec![replied(200, inspect)]);
    assert_eq!(state.current_name(), Some("inspected"));
    let state = after(state, vec![replied(201, "{\"Id\":\"new\"}"), replied(500, "")]);
    assert_eq!(state.current_name(), None);
}

#[test]
fn replaces_a_container_whose_tag_has_moved() {
    let list = r#"[{"Id": "1", "Image": "sha256:0a1b", "Names": ["/a"]}]"#;
    let state = after(
        listing(),
        vec![
            replied(200, list),
            replied(200, "{\"Name\":\"/a\",\"Config\":{\"Image\":\"app:prod\"}}"),
        ],
    );
    assert_eq!(state.matched(), Some(1));
    assert_eq!(path(&state), "/containers/create?name=a-replacement");
}

#[test]
fn replaces_each_container_in_order() {
    let list = r#"[
        {"Id": "1", "Image": "app:prod", "Names": ["/a"]},
        {"Id": "2", "Names": ["/b"]},
        {"Id": "3", "Names": ["/c"]},
        {"Id": "4", "Names": ["/d"]}
    ]"#;
    let state = after(
        listing(),
        vec![
            replied(200, list),
            replied(404, "gone"),
            replied(200, "{\"Config\":{\"Image\":\"other\"}}"),
            replied(200, "{\"Name\":\"/c\",\"Config\":{\"Image\":\"app:prod\"}}"),
        ],
    );
    assert_eq!(path(&state), "/containers/4/json");
    let state = after(
        state,
        vec![replied(200, "{\"Name\":\"/d\",\"Config\":{\"Image\":\"app:prod\"}}")],
    );
    assert_eq!(state.matched(), Some(3));
    assert_eq!(state.outcomes().unwrap().len(), 1);
    assert_eq!(path(&state), "/containers/create?name=c-replacement");
    let state = after(
        state,
        vec![
            replied(201, "{\"Id\":\"new\"}"),
            replied(204, ""),
            replied(204, ""),
            replied(204, ""),
        ],
    );
    assert_eq!(path(&state), "/containers/new/start");
    assert_eq!(state.current_name(), Some("c"));
    let state = after(state, vec![replied(204, "")]);
    assert_eq!(state.outcomes().unwrap().len(), 2);
    assert_eq!(path(&state), "/containers/create?name=d-replacement");
    let state = after(state, vec![replied(500, "full")]);
    assert_eq!(state.action(), Action::Answer);
    assert_eq!(state.matched(), Some(3));
    assert_eq!(state.outcomes().unwrap().len(), 3);
    let response = state.finish().ok().unwrap().unwrap();
    assert_eq!((response.replaced, response.failed), (1, 2));
    assert_eq!(response.status_code().as_u16(), 502);
    let [first, second, third] = &response.containers[..] else {
        panic!("three outcomes");
    };
    assert_eq!((first.container_id.as_str(), first.container_name.as_str()), ("1", "a"));
    assert_eq!(first.status, ReplaceStatus::Failed);
    assert_eq!(first.new_container_id, None);
    assert_eq!(first.message, "engine returned an error: status 404 Not Found: gone");
    assert_eq!((second.container_id.as_str(), second.container_name.as_str()), ("3", "c"));
    assert_eq!(second.status, ReplaceStatus::Replaced);
    assert_eq!(second.new_container_id.as_deref(), Some("new"));
    assert_eq!((third.container_id.as_str(), third.container_name.as_str()), ("4", "d"));
    assert_eq!(third.message, "engine returned an error: status 500 Internal Server Error: full");
}

#[test]
fn answers_alike_whatever_the_token() {
    let accepted = |token: &str| {
        let config = AppConfig::from_toml(Ok(RawConfig {
            server: ServerConfig { listen: "127.0.0.1:3000".to_owned() },
            engine: EngineConfig { socket_path: "/run/engine.sock".to_owned() },
            images: vec![RawImagePolicy {
                image_ref: "app:prod".to_owned(),
                bearer_token: token.to_owned(),
            }],
        }))
        .ok()
        .unwrap();
        let header = format!("Bearer {token}");
        let state = Deployment::deploy_image(&config, "app:prod", Some(header.as_bytes()));
        let events = vec![
            Event::Received(7),
            Event::Ended,
            Event::Loaded(Ok(())),
            Event::Deleted,
            replied(200, "[{\"Id\":\"1\",\"Image\":\"app:prod\"}]"),
            replied(500, "x"),
        ];
        after(state.ok().unwrap(), events).finish().ok().unwrap().unwrap()
    };
    let (one, mut two) = (accepted("first"), accepted("second"));
    assert_ne!(one.trace_id, two.trace_id);
    two.trace_id = one.trace_id.clone();
    assert_eq!(one, two);
}
