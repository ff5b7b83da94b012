use hachimi_deployer::config::{
    resolve_config_path, AppConfig, EngineConfig, RawConfig, RawImagePolicy, ServerConfig,
};
use hachimi_deployer::error::AppError;

fn text_of(table: &toml::Table, key: &str) -> String {
    table[key].as_str().unwrap().to_owned()
}

fn raw_config(text: &str) -> Result<RawConfig, String> {
    let table = text.parse::<toml::Table>().map_err(|err| err.to_string())?;
    let images = match table.get("images") {
        Some(images) => images.as_array().unwrap().clone(),
        None => Vec::new(),
    };
    Ok(RawConfig {
        server: ServerConfig {
            listen: text_of(table["server"].as_table().unwrap(), "listen"),
        },
        engine: EngineConfig {
            socket_path: text_of(table["engine"].as_table().unwrap(), "socket_path"),
        },
        images: images
            .iter()
            .map(|image| RawImagePolicy {
                image_ref: text_of(image.as_table().unwrap(), "image_ref"),
                bearer_token: text_of(image.as_table().unwrap(), "bearer_token"),
            })
            .collect(),
    })
}

fn with_images(images: &[(&str, &str)]) -> Result<RawConfig, String> {
    Ok(RawConfig {
        server: ServerConfig { listen: "127.0.0.1:3000".to_owned() },
        engine: EngineConfig { socket_path: "/run/engine.sock".to_owned() },
        images: images
            .iter()
            .map(|(image_ref, bearer_token)| RawImagePolicy {
                image_ref: (*image_ref).to_owned(),
                bearer_token: (*bearer_token).to_owned(),
            })
            .collect(),
    })
}

#[test]
fn parses_valid_config() {
    let config = AppConfig::from_toml(raw_config(
        r#"
            [server]
            listen = "127.0.0.1:3000"

            [engine]
            socket_path = "/var/run/docker.sock"

            [[images]]
            image_ref = "ghcr.io/acme/app:prod"
            bearer_token = "token-a"
            "#,
    ))
    .ok()
    .unwrap();

    assert_eq!(config.image_policies.len(), 1);
    assert!(config.image_policies.contains_key("ghcr.io/acme/app:prod"));
}

#[test]
fn rejects_duplicate_images() {
    let err = AppConfig::from_toml(raw_config(
        r#"
            [server]
            listen = "127.0.0.1:3000"

            [engine]
            socket_path = "/var/run/docker.sock"

            [[images]]
            image_ref = "ghcr.io/acme/app:prod"
            bearer_token = "token-a"

            [[images]]
            image_ref = "ghcr.io/acme/app:prod"
            bearer_token = "token-b"
            "#,
    ))
    .err()
    .unwrap();

    assert!(err.to_string().contains("duplicate image_ref"));
}

#[test]
fn keeps_the_documented_example() {
    let config = AppConfig::from_toml(raw_config(
        r#"
[server]
listen = "0.0.0.0:3000"

[engine]
socket_path = "/var/run/docker.sock"

[[images]]
image_ref = "ghcr.io/acme/app:prod"
bearer_token = "replace-me"

[[images]]
image_ref = "docker.io/library/nginx:latest"
bearer_token = "another-token"
"#,
    ))
    .ok()
    .unwrap();

    assert_eq!(config.server.listen, "0.0.0.0:3000");
    assert_eq!(config.engine.socket_path, "/var/run/docker.sock");
    assert_eq!(config.image_policies.len(), 2);
    let app = config.image_policies.get("ghcr.io/acme/app:prod").unwrap();
    assert_eq!(app.image_ref, "ghcr.io/acme/app:prod");
    assert_eq!(app.bearer_token, "replace-me");
    let nginx = config.image_policies.get("docker.io/library/nginx:latest").unwrap();
    assert_eq!(nginx.bearer_token, "another-token");
}

#[test]
fn finds_each_image_without_white_space() {
    let config = AppConfig::from_toml(with_images(&[(" \tapp:1\u{a0}\n", "\u{3000} a b \r")]))
        .ok()
        .unwrap();
    let policy = config.image_policies.get("app:1").unwrap();
    assert_eq!(policy.image_ref, "app:1");
    assert_eq!(policy.bearer_token, "a b");
    assert!(!config.image_policies.contains_key(" \tapp:1\u{a0}\n"));
}

#[test]
fn rejects_a_file_without_images() {
    let err = AppConfig::from_toml(with_images(&[])).err().unwrap();
    assert_eq!(err, AppError::Config("at least one [[images]] entry is required".to_owned()));
    assert_eq!(
        err.to_string(),
        "invalid configuration: at least one [[images]] entry is required"
    );
    assert_eq!(err.status_code().as_u16(), 400);
}

#[test]
fn rejects_a_blank_image() {
    let err = AppConfig::from_toml(with_images(&[("app:1", "a"), (" \u{2003} ", "b")])).err().unwrap();
    assert_eq!(err, AppError::Config("image_ref entries must not be empty".to_owned()));
}

#[test]
fn rejects_a_blank_token() {
    let err = AppConfig::from_toml(with_images(&[(" app:1 ", " \n")])).err().unwrap();
    assert_eq!(
        err,
        AppError::Config("bearer_token for image 'app:1' must not be empty".to_owned())
    );
}

#[test]
fn compares_names_without_white_space() {
    let err =
        AppConfig::from_toml(with_images(&[("app:1", "a"), ("web:1", "b"), (" app:1", "c")]))
            .err()
            .unwrap();
    assert_eq!(
        err,
        AppError::Config("duplicate image_ref 'app:1' in configuration".to_owned())
    );
}

#[test]
fn reports_the_first_fault() {
    let err = AppConfig::from_toml(with_images(&[("app:1", "a"), ("app:2", ""), ("app:1", "b")]))
        .err()
        .unwrap();
    assert_eq!(
        err,
        AppError::Config("bearer_token for image 'app:2' must not be empty".to_owned())
    );
}

#[test]
fn words_faults_without_tokens() {
    let first =
        AppConfig::from_toml(with_images(&[("app:1", "secret"), ("app:1", "other")])).err().unwrap();
    let second =
        AppConfig::from_toml(with_images(&[("app:1", "one"), ("app:1", "two")])).err().unwrap();
    assert_eq!(first, second);
    assert!(!first.to_string().contains("secret"));
}

#[test]
fn passes_on_the_error_of_the_parser() {
    let err = AppConfig::from_toml(Err("no table".to_owned())).err().unwrap();
    assert_eq!(err, AppError::TomlParse("no table".to_owned()));
    assert_eq!(err.to_string(), "failed to parse config file: no table");
    assert_eq!(err.status_code().as_u16(), 500);
    assert!(AppConfig::from_toml(raw_config("[server")).is_err());
}

#[test]
fn has_a_default_path() {
    assert_eq!(resolve_config_path(None), "config/deployer.toml");
    assert_eq!(resolve_config_path(Some("/etc/d.toml".to_owned())), "/etc/d.toml");
}
