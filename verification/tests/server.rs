use axum::http::HeaderValue;
use hachimi_deployer::config::{
    AppConfig, EngineConfig, RawConfig, RawImagePolicy, ServerConfig,
};
use hachimi_deployer::engine::{ContainerReplaceOutcome, ReplaceStatus};
use hachimi_deployer::error::AppError;
use hachimi_deployer::server::{
    authorize, decode_image_ref, extract_bearer_token, DeployResponse,
};

fn config() -> AppConfig {
    let image = |image_ref: &str, bearer_token: &str| RawImagePolicy {
        image_ref: image_ref.to_owned(),
        bearer_token: bearer_token.to_owned(),
    };
    AppConfig::from_toml(Ok(RawConfig {
        server: ServerConfig { listen: "127.0.0.1:3000".to_owned() },
        engine: EngineConfig { socket_path: "/run/engine.sock".to_owned() },
        images: vec![
            image("ghcr.io/acme/app:prod", "replace-me"),
            image("nginx:latest", "another-token"),
            image("café:1", "t"),
        ],
    }))
    .ok()
    .unwrap()
}

fn outcome(status: ReplaceStatus) -> ContainerReplaceOutcome {
    ContainerReplaceOutcome {
        container_id: "c".to_owned(),
        container_name: "n".to_owned(),
        new_container_id: None,
        status,
        message: "m".to_owned(),
    }
}

#[test]
fn decodes_image_ref() {
    let decoded = decode_image_ref("ghcr.io%2Facme%2Fapp%3Aprod").unwrap();
    assert_eq!(decoded, "ghcr.io/acme/app:prod");
}

#[test]
fn extracts_bearer_token() {
    let header = HeaderValue::from_static("Bearer abc");
    let token = extract_bearer_token(Some(header.as_bytes())).unwrap();
    assert_eq!(token, "abc");
}

#[test]
fn keeps_text_without_escapes() {
    assert_eq!(decode_image_ref("ghcr.io/acme/app:prod").unwrap(), "ghcr.io/acme/app:prod");
    assert_eq!(decode_image_ref("caf\u{e9}").unwrap(), "café");
    assert_eq!(decode_image_ref("a+b").unwrap(), "a+b");
}

#[test]
fn keeps_a_percent_sign_without_digits() {
    assert_eq!(decode_image_ref("100%").unwrap(), "100%");
    assert_eq!(decode_image_ref("%zz%4").unwrap(), "%zz%4");
    assert_eq!(decode_image_ref("%%41").unwrap(), "%A");
}

#[test]
fn decodes_digits_of_either_case() {
    assert_eq!(decode_image_ref("%c3%A9").unwrap(), "é");
}

#[test]
fn decodes_every_form_of_an_image_ref() {
    for form in ["a%2fb%3A1%25é", "%61/b:1%25%c3%A9", "a/b:%31%25%C3%a9"] {
        assert_eq!(decode_image_ref(form).unwrap(), "a/b:1%é");
    }
}

#[test]
fn rejects_a_malformed_image_ref() {
    assert_eq!(decode_image_ref("%ff"), Err(AppError::InvalidImageReference));
    assert_eq!(decode_image_ref(""), Err(AppError::InvalidImageReference));
}

#[test]
fn misses_a_bearer_token() {
    assert_eq!(extract_bearer_token(None), Err(AppError::MissingBearerToken));
    assert_eq!(extract_bearer_token(Some(b"Basic abc")), Err(AppError::MissingBearerToken));
    assert_eq!(extract_bearer_token(Some(b"bearer abc")), Err(AppError::MissingBearerToken));
    assert_eq!(extract_bearer_token(Some(b"Bearer")), Err(AppError::MissingBearerToken));
    assert_eq!(
        extract_bearer_token(Some("Bearer caf\u{e9}".as_bytes())),
        Err(AppError::MissingBearerToken)
    );
    assert_eq!(extract_bearer_token(Some(b"Bearer a\nb")), Err(AppError::MissingBearerToken));
    assert_eq!(extract_bearer_token(Some(b"Bearer a\x7fb")), Err(AppError::MissingBearerToken));
}

#[test]
fn takes_all_of_the_token() {
    assert_eq!(extract_bearer_token(Some(b"Bearer ")).unwrap(), "");
    assert_eq!(extract_bearer_token(Some(b"Bearer  a\t~ ")).unwrap(), " a\t~ ");
}

#[test]
fn lets_a_listed_image_through() {
    let config = config();
    assert_eq!(
        authorize(&config, "ghcr.io%2Facme%2Fapp%3Aprod", Some(b"Bearer replace-me")).unwrap(),
        "ghcr.io/acme/app:prod"
    );
    assert_eq!(
        authorize(&config, "nginx:latest", Some(b"Bearer another-token")).unwrap(),
        "nginx:latest"
    );
    assert_eq!(authorize(&config, "caf%C3%A9%3A1", Some(b"Bearer t")).unwrap(), "café:1");
}

#[test]
fn answers_a_malformed_image_with_400() {
    let err = authorize(&config(), "%ff", Some(b"Bearer replace-me")).unwrap_err();
    assert_eq!(err, AppError::InvalidImageReference);
    assert_eq!(err.status_code().as_u16(), 400);
    assert_eq!(err.to_string(), "invalid image reference encoding");
}

#[test]
fn answers_an_unknown_image_with_404() {
    let config = config();
    for header in [None, Some(&b"Bearer replace-me"[..])] {
        let err = authorize(&config, "ghcr.io%2Facme%2Fapp", header).unwrap_err();
        assert_eq!(err, AppError::UnknownImage);
        assert_eq!(err.status_code().as_u16(), 404);
        assert_eq!(err.to_string(), "unsupported image reference");
    }
}

#[test]
fn answers_a_missing_token_with_401() {
    let err = authorize(&config(), "nginx:latest", None).unwrap_err();
    assert_eq!(err, AppError::MissingBearerToken);
    assert_eq!(err.status_code().as_u16(), 401);
    assert_eq!(err.to_string(), "missing bearer token");
}

#[test]
fn answers_a_wrong_token_with_401() {
    let config = config();
    for token in [&b"Bearer replace-me"[..], b"Bearer another-token ", b"Bearer another-toke"] {
        let err = authorize(&config, "nginx:latest", Some(token)).unwrap_err();
        assert_eq!(err, AppError::Unauthorized);
        assert_eq!(err.status_code().as_u16(), 401);
        assert_eq!(err.to_string(), "unauthorized");
    }
}

#[test]
fn words_every_error() {
    let text = || "why".to_owned();
    let cases = [
        (AppError::ConfigRead(text()), 500, "failed to read config file: why"),
        (AppError::TomlParse(text()), 500, "failed to parse config file: why"),
        (AppError::Config(text()), 400, "invalid configuration: why"),
        (AppError::Unauthorized, 401, "unauthorized"),
        (AppError::UnknownImage, 404, "unsupported image reference"),
        (AppError::InvalidImageReference, 400, "invalid image reference encoding"),
        (AppError::MissingBearerToken, 401, "missing bearer token"),
        (AppError::InvalidBody, 400, "request body too large or malformed"),
        (AppError::EngineRequest(text()), 502, "engine request failed: why"),
        (AppError::EngineResponse(text()), 502, "engine returned an error: why"),
        (AppError::ContainerReplace(text()), 502, "container replacement failed: why"),
    ];
    for (err, status, message) in cases {
        assert_eq!(err.to_string(), message);
        assert_eq!(err.status_code().as_u16(), status);
        let response = err.into_response();
        assert_eq!(response.status.as_u16(), status);
        assert_eq!(response.body.to_text(), format!("{{\"error\":\"{message}\"}}"));
    }
}

#[test]
fn counts_the_outcomes() {
    let response = DeployResponse::summarize(
        "t".to_owned(),
        "nginx:latest".to_owned(),
        12345678,
        vec![
            outcome(ReplaceStatus::Replaced),
            outcome(ReplaceStatus::Failed),
            outcome(ReplaceStatus::Replaced),
        ],
    );
    assert_eq!(response.trace_id, "t");
    assert_eq!(response.image_ref, "nginx:latest");
    assert_eq!(response.bytes_received, 12345678);
    assert_eq!(response.replaced, 2);
    assert_eq!(response.failed, 1);
    assert_eq!(response.containers.len(), 3);
    assert_eq!(response.status_code().as_u16(), 502);
}

#[test]
fn answers_complete_success_with_200() {
    let all = DeployResponse::summarize(
        "t".to_owned(),
        "i".to_owned(),
        1,
        vec![outcome(ReplaceStatus::Replaced)],
    );
    assert_eq!((all.replaced, all.failed), (1, 0));
    assert_eq!(all.status_code().as_u16(), 200);
    let none = DeployResponse::summarize("t".to_owned(), "i".to_owned(), 0, vec![]);
    assert_eq!((none.replaced, none.failed), (0, 0));
    assert_eq!(none.status_code().as_u16(), 200);
}
