use hachimi_deployer::engine::{
    build_create_payload, create_container, inspect_container, list_containers, load_image,
    load_report_lines, parse_empty_response, parse_json_response, remove_container,
    read_entries, rename_container, start_container, stop_container, ContainerSummary,
    EngineClient, EngineReply, EngineRequest, ImageLoadLine, InspectedContainer, ListedContainer,
    Method, ReplaceStatus,
};
use hachimi_deployer::error::AppError;
use hachimi_deployer::json::Json;
use hachimi_deployer::status::StatusCode;

fn reply(status: u16, body: &str) -> EngineReply {
    EngineReply::Response {
        status: StatusCode::from_u16(status).unwrap(),
        body: body.as_bytes().to_vec(),
    }
}

fn json(text: &str) -> Json {
    Json::parse(text.as_bytes()).unwrap()
}

fn bare(method: Method, path: &str) -> EngineRequest {
    EngineRequest { method, path: path.to_owned(), content_type: None, body: vec![] }
}

fn summary(id: &str, name: &str) -> ContainerSummary {
    ContainerSummary { id: id.to_owned(), name: name.to_owned() }
}

fn client() -> EngineClient {
    EngineClient::new("/run/engine.sock".to_owned())
}

#[test]
fn addresses_the_engine() {
    assert_eq!(inspect_container("a1"), bare(Method::Get, "/containers/a1/json"));
    assert_eq!(stop_container("a1"), bare(Method::Post, "/containers/a1/stop?t=10"));
    assert_eq!(start_container("a1"), bare(Method::Post, "/containers/a1/start"));
    assert_eq!(remove_container("a1", false), bare(Method::Delete, "/containers/a1?force=0"));
    assert_eq!(remove_container("a1", true), bare(Method::Delete, "/containers/a1?force=1"));
    assert_eq!(list_containers(), bare(Method::Get, "/containers/json?all=1"));
}

#[test]
fn encodes_names_in_paths() {
    assert_eq!(
        rename_container("a1", "my app/é~-_."),
        bare(Method::Post, "/containers/a1/rename?name=my%20app%2F%C3%A9~-_.")
    );
    let request = create_container("app+1", &json("{\"b\":1,\"a\":null}")).unwrap();
    assert_eq!(request.method, Method::Post);
    assert_eq!(request.path, "/containers/create?name=app%2B1");
    assert_eq!(request.content_type.as_deref(), Some("application/json"));
    assert_eq!(request.body, b"{\"a\":null,\"b\":1}");
}

#[test]
fn sends_the_archive_as_it_is() {
    let request = load_image(vec![0, 255, 7]);
    assert_eq!(request.method, Method::Post);
    assert_eq!(request.path, "/images/load?quiet=1");
    assert_eq!(request.content_type.as_deref(), Some("application/x-tar"));
    assert_eq!(request.body, vec![0, 255, 7]);
}

#[test]
fn keeps_the_socket_path() {
    assert_eq!(client().socket_path, "/run/engine.sock");
}

#[test]
fn reads_a_document() {
    assert_eq!(parse_json_response(&reply(200, "{\"Id\":\"x\"}")), Ok(json("{\"Id\":\"x\"}")));
    assert_eq!(parse_json_response(&reply(201, "[1]")), Ok(json("[1]")));
    assert_eq!(parse_json_response(&reply(204, "ignored")), Ok(Json::Null));
}

#[test]
fn reports_a_refused_document() {
    assert_eq!(
        parse_json_response(&reply(404, "no such container")),
        Err(AppError::EngineResponse("status 404 Not Found: no such container".to_owned()))
    );
    assert_eq!(
        parse_json_response(&reply(304, "")),
        Err(AppError::EngineResponse("status 304 Not Modified: ".to_owned()))
    );
    assert_eq!(
        parse_json_response(&reply(599, "x")),
        Err(AppError::EngineResponse("status 599 <unknown status code>: x".to_owned()))
    );
}

#[test]
fn reports_a_document_that_is_none() {
    assert_eq!(
        parse_json_response(&reply(200, "")),
        Err(AppError::EngineResponse("EOF while parsing a value at line 1 column 0".to_owned()))
    );
}

#[test]
fn reports_a_failed_request() {
    let failed = EngineReply::Failed("no socket".to_owned());
    let err = AppError::EngineRequest("no socket".to_owned());
    assert_eq!(parse_json_response(&failed), Err(err.clone()));
    assert_eq!(parse_empty_response(&failed), Err(err.clone()));
    assert_eq!(client().list_all_containers(&failed), Err(err.clone()));
    assert_eq!(client().load_image_from_path(&failed, &vec![]), Err(err));
}

#[test]
fn accepts_an_acknowledgement() {
    for status in [200, 204, 299, 304] {
        assert_eq!(parse_empty_response(&reply(status, "not json")), Ok(()));
    }
    assert_eq!(
        parse_empty_response(&reply(409, "in use")),
        Err(AppError::EngineResponse("status 409 Conflict: in use".to_owned()))
    );
}

#[test]
fn replaces_bytes_that_are_no_text() {
    let refused = EngineReply::Response {
        status: StatusCode::from_u16(500).unwrap(),
        body: vec![b'a', 0xff, b'b'],
    };
    assert_eq!(
        parse_empty_response(&refused),
        Err(AppError::EngineResponse("status 500 Internal Server Error: a\u{fffd}b".to_owned()))
    );
}

#[test]
fn knows_the_status_codes() {
    assert!(StatusCode::from_u16(99).is_none());
    assert!(StatusCode::from_u16(1000).is_none());
    assert_eq!(StatusCode::from_u16(999).unwrap().as_u16(), 999);
    assert_eq!(StatusCode::from_u16(502).unwrap().to_text(), "502 Bad Gateway");
    assert!(StatusCode::from_u16(502).unwrap().is_server_error());
    assert!(!StatusCode::from_u16(404).unwrap().is_server_error());
    assert!(!StatusCode::from_u16(300).unwrap().is_success());
}

#[test]
fn lists_every_container_with_an_id() {
    let body = r#"[
        {"Id": "1", "Image": "app:prod", "Names": ["/app", "/alias"]},
        {"Id": "2", "Image": "sha256:0a1b", "Names": ["/moved"]},
        {"Image": "app:prod", "Names": ["/no-id"]},
        {"Id": 4, "Image": "app:prod", "Names": ["/number"]},
        {"Id": "5", "Names": ["//two/slashes"]},
        {"Id": "6", "Image": "app:prod", "Names": []},
        {"Id": "7", "Image": null, "Names": [8]},
        {"Id": "8"},
        "app:prod"
    ]"#;
    let listed = |id: &str, name: &str, image: Option<&str>| ListedContainer {
        summary: summary(id, name),
        image: image.map(|image| image.to_owned()),
    };
    let expected = vec![
        listed("1", "app", Some("app:prod")),
        listed("2", "moved", Some("sha256:0a1b")),
        listed("5", "two/slashes", None),
        listed("6", "", Some("app:prod")),
        listed("7", "", None),
        listed("8", "", None),
    ];
    assert_eq!(client().list_all_containers(&reply(200, body)), Ok(expected.clone()));
    let entries = Json::parse_array(body.as_bytes()).unwrap();
    assert_eq!(read_entries(&entries), expected);
}

#[test]
fn selects_by_the_configured_image() {
    let inspected = |id: &str, image: &str, text: &str| InspectedContainer {
        summary: summary(id, "n"),
        listed_image: Some(image.to_owned()),
        inspect: Ok(json(text)),
    };
    let unknown = |id: &str, image: Option<&str>| InspectedContainer {
        summary: summary(id, "n"),
        listed_image: image.map(|image| image.to_owned()),
        inspect: Err(AppError::EngineRequest("down".to_owned())),
    };
    let containers = vec![
        inspected("1", "sha256:0a1b", r#"{"Config": {"Image": "app:prod"}}"#),
        inspected("2", "app:prod", r#"{"Image": "app:prod", "Config": {"Image": "other"}}"#),
        inspected("3", "app:prod2", r#"{"Config": {"Image": "app:prod2"}}"#),
        inspected("4", "APP:prod", r#"{"Config": {"Image": "APP:prod"}}"#),
        inspected("5", "app:prod", r#"{"Config": {}}"#),
        inspected("6", "app:prod", r#"{"Image": "app:prod"}"#),
        inspected("7", "app:prod", r#"{"Config": {"Image": ["app:prod"]}}"#),
        unknown("8", Some("app:prod")),
        unknown("9", Some("other")),
        unknown("10", None),
        inspected("11", "app:prod", r#"{"Config": {"Image": "app:prod"}}"#),
    ];
    let selected = client().list_containers_by_image(containers, "app:prod");
    let ids: Vec<&str> = selected.iter().map(|one| one.summary.id.as_str()).collect();
    assert_eq!(ids, ["1", "8", "11"]);
    assert!(selected[1].inspect.is_err());
}

#[test]
fn selects_by_the_list_where_it_is_truthful() {
    let body = r#"[
        {"Id": "1", "Image": "app:prod", "Names": ["/a"]},
        {"Id": "2", "Image": "app", "Names": ["/b"]},
        {"Id": "3", "Image": "app:prod", "Names": ["//c", "/d"]},
        {"Id": "4", "Image": "app:prod"},
        {"Id": "5"},
        {"Image": "app:prod"}
    ]"#;
    let containers = client()
        .list_all_containers(&reply(200, body))
        .unwrap()
        .into_iter()
        .map(|one| {
            let inspect = match &one.image {
                Some(image) if one.summary.id != "3" => {
                    Ok(json(&format!("{{\"Config\":{{\"Image\":\"{image}\"}}}}")))
                }
                _ => Err(AppError::EngineRequest("down".to_owned())),
            };
            one.inspected(inspect)
        })
        .collect();
    let selected = client().list_containers_by_image(containers, "app:prod");
    let summaries: Vec<ContainerSummary> = selected.into_iter().map(|one| one.summary).collect();
    assert_eq!(summaries, [summary("1", "a"), summary("3", "c"), summary("4", "")]);
}

#[test]
fn reports_a_failed_listing() {
    assert_eq!(
        client().list_all_containers(&reply(500, "boom")),
        Err(AppError::EngineResponse(
            "container list failed with status 500 Internal Server Error: boom".to_owned()
        ))
    );
    assert_eq!(
        client().list_all_containers(&reply(200, "{}")),
        Err(AppError::EngineResponse(
            "invalid type: map, expected a sequence at line 1 column 0".to_owned()
        ))
    );
}

#[test]
fn splits_a_load_report() {
    assert_eq!(
        load_report_lines(b"{\"stream\":\"a\"}\r\n \t\n\n{\"b\":1}\n"),
        vec!["{\"stream\":\"a\"}".to_owned(), "{\"b\":1}".to_owned()]
    );
    assert_eq!(load_report_lines(b""), Vec::<String>::new());
    assert_eq!(load_report_lines(b"a\xff\rb"), vec!["a\u{fffd}\rb".to_owned()]);
}

#[test]
fn reads_a_load_report() {
    let line = |error: Option<&str>, error_detail: Option<Json>| {
        Some(ImageLoadLine { error: error.map(|text| text.to_owned()), error_detail })
    };
    let done = reply(200, "");
    assert_eq!(client().load_image_from_path(&done, &vec![]), Ok(()));
    assert_eq!(client().load_image_from_path(&done, &vec![None, line(None, None)]), Ok(()));
    assert_eq!(
        client().load_image_from_path(
            &done,
            &vec![None, line(Some("bad tar"), Some(json("1"))), line(Some("later"), None)]
        ),
        Err(AppError::EngineResponse("bad tar".to_owned()))
    );
    assert_eq!(
        client().load_image_from_path(
            &done,
            &vec![line(None, Some(json("{\"message\": \"m\", \"code\": 1.5}"))), line(Some("b"), None)]
        ),
        Err(AppError::EngineResponse("{\"code\":1.5,\"message\":\"m\"}".to_owned()))
    );
    assert_eq!(
        client().load_image_from_path(&reply(400, "bad"), &vec![line(Some("a"), None)]),
        Err(AppError::EngineResponse(
            "image load failed with status 400 Bad Request: bad".to_owned()
        ))
    );
}

#[test]
fn keeps_the_configuration() {
    let inspect = json(
        r#"{
            "Name": "/app",
            "Config": {
                "Image": "app:old", "Hostname": "h", "HostnamePath": "p", "HostsPath": "q",
                "Cmd": ["run"], "Entrypoint": null, "Env": ["A=1"], "ExposedPorts": {"80/tcp": {}},
                "Labels": {"l": "v"}, "OpenStdin": false, "StdinOnce": false, "Tty": true,
                "User": "u", "WorkingDir": "/w", "StopSignal": "SIGTERM", "StopTimeout": 5,
                "AttachStderr": true, "AttachStdin": false, "AttachStdout": true
            },
            "HostConfig": {"Binds": ["/a:/b"]},
            "NetworkSettings": {"Networks": {"bridge": {"Aliases": ["x"]}}}
        }"#,
    );
    let expected = json(
        r#"{
            "AttachStderr": true, "AttachStdin": false, "AttachStdout": true, "Cmd": ["run"],
            "Entrypoint": null, "Env": ["A=1"], "ExposedPorts": {"80/tcp": {}},
            "HostConfig": {"Binds": ["/a:/b"]}, "Image": "app:new", "Labels": {"l": "v"},
            "NetworkingConfig": {"EndpointsConfig": {"bridge": {"Aliases": ["x"]}}},
            "OpenStdin": false, "StdinOnce": false, "StopSignal": "SIGTERM", "StopTimeout": 5,
            "Tty": true, "User": "u", "WorkingDir": "/w"
        }"#,
    );
    let payload = build_create_payload(&inspect, "app:new").unwrap();
    assert_eq!(payload.to_text(), expected.to_text());
}

#[test]
fn describes_a_bare_container() {
    let payload = build_create_payload(&json("{\"Config\":{}}"), "app:new").unwrap();
    assert_eq!(
        payload.to_text(),
        "{\"HostConfig\":{},\"Image\":\"app:new\",\"NetworkingConfig\":{}}"
    );
}

#[test]
fn needs_a_configuration() {
    assert_eq!(
        build_create_payload(&json("{}"), "i"),
        Err(AppError::ContainerReplace("container inspect missing Config".to_owned()))
    );
    assert_eq!(
        build_create_payload(&Json::Null, "i"),
        Err(AppError::ContainerReplace("container inspect missing Config".to_owned()))
    );
    assert_eq!(
        build_create_payload(&json("{\"Config\":[]}"), "i"),
        Err(AppError::ContainerReplace("container Config is not an object".to_owned()))
    );
}

#[test]
fn words_the_outcome_of_a_replacement() {
    let done = client().replace_container(&summary("1", "app"), Ok("2".to_owned()));
    assert_eq!(done.container_id, "1");
    assert_eq!(done.container_name, "app");
    assert_eq!(done.new_container_id.as_deref(), Some("2"));
    assert_eq!(done.status, ReplaceStatus::Replaced);
    assert_eq!(done.message, "container replaced successfully");
    let failed = client()
        .replace_container(&summary("1", "app"), Err(AppError::EngineRequest("down".to_owned())));
    assert_eq!(failed.container_id, "1");
    assert_eq!(failed.new_container_id, None);
    assert_eq!(failed.status, ReplaceStatus::Failed);
    assert_eq!(failed.message, "engine request failed: down");
}

#[test]
fn walks_a_document() {
    let document = json("{\"a\":{\"b\":[\"x\",2]},\"t\":true}");
    let list = document.get("a").unwrap().get("b").unwrap();
    assert_eq!(list.first().unwrap().as_str(), Some("x"));
    assert_eq!(document.get_str("t"), None);
    assert_eq!(document.get("c"), None);
    assert_eq!(list.get("b"), None);
    assert_eq!(list.clone(), *list);
    let twice = Json::Object(vec![
        ("k".to_owned(), Json::Bool(false)),
        ("k".to_owned(), Json::Text("last".to_owned())),
    ]);
    assert_eq!(twice.get_str("k"), Some("last"));
    assert_eq!(twice.to_text(), "{\"k\":\"last\"}");
    let mixed = Json::Object(vec![
        ("a".to_owned(), Json::Null),
        ("b".to_owned(), Json::Bool(true)),
        ("a".to_owned(), Json::Bool(false)),
        ("c".to_owned(), Json::Null),
        ("b".to_owned(), Json::Text("x".to_owned())),
    ]);
    assert_eq!(mixed.to_bytes().unwrap(), b"{\"a\":false,\"b\":\"x\",\"c\":null}");
}

#[test]
fn exchanges_documents() {
    let value = serde_json::from_str::<serde_json::Value>("{\"a\":[1,-2.5,\"é\",null,true]}").unwrap();
    let tree = Json::from_value(value.clone());
    assert_eq!(tree.to_value(), value);
    assert_eq!(tree.to_text(), value.to_string());
    assert_eq!(tree.to_bytes().unwrap(), value.to_string().into_bytes());
}
