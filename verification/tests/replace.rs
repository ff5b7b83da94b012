use hachimi_deployer::engine::{
    ContainerSummary, EngineReply, EngineRequest, Method,
};
use hachimi_deployer::error::AppError;
use hachimi_deployer::replace::Replacement;
use hachimi_deployer::status::StatusCode;

const INSPECT: &str = "{\"Name\":\"/app\",\"Config\":{\"Tty\":true}}";

fn reply(status: u16, body: &str) -> EngineReply {
    EngineReply::Response {
        status: StatusCode::from_u16(status).unwrap(),
        body: body.as_bytes().to_vec(),
    }
}

fn line(request: &EngineRequest) -> String {
    let method = match request.method {
        Method::Get => "GET",
        Method::Post => "POST",
        Method::Delete => "DELETE",
    };
    format!("{method} {}", request.path)
}

fn run(replies: &[EngineReply]) -> (Vec<String>, Result<String, AppError>) {
    let container = ContainerSummary { id: "old".to_owned(), name: "listed".to_owned() };
    let mut state = Replacement::start(container, "app:new".to_owned());
    let mut sent = Vec::new();
    for reply in replies {
        match state.request() {
            Some(request) => sent.push(line(&request)),
            None => panic!("finished too early"),
        }
        state = state.advance(reply);
    }
    assert!(state.request().is_none());
    match state.finish() {
        Ok((container, result)) => {
            assert_eq!(container.id, "old");
            (sent, result)
        }
        Err(_) => panic!("not finished"),
    }
}

fn refused(text: &str) -> Result<String, AppError> {
    Err(AppError::EngineResponse(format!("status 500 Internal Server Error: {text}")))
}

#[test]
fn replaces_a_container() {
    let (sent, result) = run(&[
        reply(200, INSPECT),
        reply(201, "{\"Id\":\"new\"}"),
        reply(204, ""),
        reply(204, ""),
        reply(204, ""),
        reply(204, ""),
    ]);
    assert_eq!(
        sent,
        [
            "GET /containers/old/json",
            "POST /containers/create?name=app-replacement",
            "POST /containers/old/stop?t=10",
            "DELETE /containers/old?force=0",
            "POST /containers/new/rename?name=app",
            "POST /containers/new/start",
        ]
    );
    assert_eq!(result, Ok("new".to_owned()));
}

#[test]
fn describes_the_new_container() {
    let container = ContainerSummary { id: "old".to_owned(), name: "listed".to_owned() };
    let state = Replacement::start(container, "app:new".to_owned()).advance(&reply(200, INSPECT));
    let request = state.request().unwrap();
    assert_eq!(request.content_type.as_deref(), Some("application/json"));
    assert_eq!(
        String::from_utf8(request.body).unwrap(),
        "{\"HostConfig\":{},\"Image\":\"app:new\",\"NetworkingConfig\":{},\"Tty\":true}"
    );
    match state.finish() {
        Ok(_) => panic!("finished too early"),
        Err(same) => assert_eq!(same.request().unwrap().method, Method::Post),
    }
}

#[test]
fn falls_back_on_the_listed_name() {
    let (sent, _) = run(&[reply(200, "{\"Name\":7,\"Config\":{}}"), reply(500, "")]);
    assert_eq!(sent[1], "POST /containers/create?name=listed-replacement");
}

#[test]
fn ends_where_the_inspection_fails() {
    let (sent, result) = run(&[reply(500, "a")]);
    assert_eq!(sent, ["GET /containers/old/json"]);
    assert_eq!(result, refused("a"));
}

#[test]
fn ends_where_there_is_no_configuration() {
    let (sent, result) = run(&[reply(200, "{}")]);
    assert_eq!(sent.len(), 1);
    assert_eq!(
        result,
        Err(AppError::ContainerReplace("container inspect missing Config".to_owned()))
    );
}

#[test]
fn ends_where_the_creation_fails() {
    let (sent, result) = run(&[reply(200, INSPECT), EngineReply::Failed("gone".to_owned())]);
    assert_eq!(sent.len(), 2);
    assert_eq!(result, Err(AppError::EngineRequest("gone".to_owned())));
}

#[test]
fn needs_the_id_of_the_new_container() {
    let (sent, result) = run(&[reply(200, INSPECT), reply(201, "{\"Id\":1}")]);
    assert_eq!(sent.len(), 2);
    assert_eq!(
        result,
        Err(AppError::ContainerReplace("create response missing container id".to_owned()))
    );
}

#[test]
fn discards_the_new_container_where_the_stop_fails() {
    let (sent, result) = run(&[
        reply(200, INSPECT),
        reply(201, "{\"Id\":\"new\"}"),
        reply(500, "stop"),
        reply(500, "discard"),
    ]);
    assert_eq!(
        sent[2..],
        ["POST /containers/old/stop?t=10", "DELETE /containers/new?force=1"]
    );
    assert_eq!(result, refused("stop"));
}

#[test]
fn restores_the_old_container_where_its_removal_fails() {
    let (sent, result) = run(&[
        reply(200, INSPECT),
        reply(201, "{\"Id\":\"new\"}"),
        reply(304, ""),
        reply(500, "remove"),
        reply(500, "restart"),
        reply(204, ""),
    ]);
    assert_eq!(
        sent[3..],
        [
            "DELETE /containers/old?force=0",
            "POST /containers/old/start",
            "DELETE /containers/new?force=1",
        ]
    );
    assert_eq!(result, refused("remove"));
}

#[test]
fn starts_the_new_container_where_the_renaming_fails() {
    let (sent, result) = run(&[
        reply(200, INSPECT),
        reply(201, "{\"Id\":\"new\"}"),
        reply(204, ""),
        reply(204, ""),
        reply(500, "rename"),
        reply(204, ""),
    ]);
    assert_eq!(
        sent[4..],
        ["POST /containers/new/rename?name=app", "POST /containers/new/start"]
    );
    assert_eq!(result, refused("rename"));
}

#[test]
fn stops_sending_where_the_replies_end() {
    let container = ContainerSummary { id: "old".to_owned(), name: "listed".to_owned() };
    let state = Replacement::start(container, "app:new".to_owned())
        .advance(&reply(200, INSPECT))
        .advance(&reply(201, "{\"Id\":\"new\"}"))
        .advance(&reply(204, ""));
    assert_eq!(line(&state.request().unwrap()), "DELETE /containers/old?force=0");
    assert!(state.finish().is_err());
}

#[test]
fn reports_a_failed_start() {
    let (sent, result) = run(&[
        reply(200, INSPECT),
        reply(201, "{\"Id\":\"new\"}"),
        reply(204, ""),
        reply(204, ""),
        reply(204, ""),
        reply(500, "start"),
    ]);
    assert_eq!(sent.len(), 6);
    assert_eq!(result, refused("start"));
}
