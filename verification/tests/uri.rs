use hachimi_deployer::engine::{
    create_container, inspect_container, list_containers, remove_container, rename_container,
    EngineClient,
};
use hachimi_deployer::json::Json;
use hachimi_deployer::uri::uri_of;

#[test]
fn writes_the_socket_in_the_place_of_the_host() {
    assert_eq!(uri_of("foo.sock", "/").unwrap(), "unix://666f6f2e736f636b:0/");
    assert_eq!(uri_of("é", "/a?b=c").unwrap(), "unix://c3a9:0/a?b=c");
    assert_eq!(uri_of("", "/a").unwrap(), "unix://:0/a");
}

#[test]
fn addresses_every_request() {
    let client = EngineClient::new("s".to_owned());
    let uri = |request| client.request_uri(&request).unwrap();
    assert_eq!(uri(list_containers()), "unix://73:0/containers/json?all=1");
    assert_eq!(uri(inspect_container("a1")), "unix://73:0/containers/a1/json");
    assert_eq!(uri(remove_container("a1", true)), "unix://73:0/containers/a1?force=1");
    assert_eq!(
        uri(rename_container("a1", "my #1 <app>?")),
        "unix://73:0/containers/a1/rename?name=my%20%231%20%3Capp%3E%3F"
    );
    assert_eq!(
        uri(create_container("a\\b", &Json::Null).unwrap()),
        "unix://73:0/containers/create?name=a%5Cb"
    );
}

#[test]
fn drops_a_fragment() {
    assert_eq!(uri_of("s", "/a?b#c d").unwrap(), "unix://73:0/a?b");
    assert_eq!(uri_of("s", "/a#?b").unwrap(), "unix://73:0/a");
}

#[test]
fn accepts_the_characters_of_a_uri() {
    let path = "/!\"$%&'()*+,-./09:;=@AZ[\\]^_az{|}~\u{e9}?!$;=?@[\\]^_`az{|}~\u{4e2d}";
    assert_eq!(uri_of("s", path).unwrap(), format!("unix://73:0{path}"));
}

#[test]
fn refuses_other_characters() {
    for path in ["", "a", "#/", "?a", "*", "/a b", "/a`", "/a<", "/a>", "/a\n", "/a\u{7f}"] {
        assert!(uri_of("s", path).is_none(), "{path:?}");
    }
    for path in ["/?a b", "/?\"", "/?<", "/?>", "/?\u{7f}"] {
        assert!(uri_of("s", path).is_none(), "{path:?}");
    }
}

#[test]
fn refuses_a_uri_that_is_too_long() {
    let path = format!("/{}", "a".repeat(65534 - 9 - 2 - 1));
    assert_eq!(uri_of("s", &path).unwrap().len(), 65534);
    assert!(uri_of("s", &format!("{path}a")).is_none());
    assert!(uri_of(&"s".repeat(40000), "/").is_none());
}
