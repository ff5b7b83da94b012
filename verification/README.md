# hachimi_deployer

A small deployment service, with its decisions proved in Verus.

`PUT /deploy/{percent-encoded image}` with `Authorization: Bearer <token>` uploads the tar archive
of a container image (`docker save`). The service writes it to a temporary file, has a Docker
compatible engine load it through its unix socket, deletes the file, and inspects every container.
It replaces those whose `Config.Image` is exactly this image: it creates a new container under a
temporary name, stops and removes the old one, gives its name to the new one and starts it. A
container that cannot be inspected is reported as failed where the engine lists it under this
image, and left out where it does not.

| status | meaning |
| --- | --- |
| 200 | the image was loaded and every container was replaced |
| 400 | the image's name or the upload is malformed |
| 401 | the token is missing or wrong |
| 404 | the image is not in the configuration |
| 500 | the upload could not be written to its file or read from it |
| 502 | the engine failed, or a container could not be replaced |

The configuration is `config/deployer.toml`, or the file that `HACHIMI_CONFIG` names:

```toml
[server]
listen = "0.0.0.0:3000"

[engine]
socket_path = "/var/run/docker.sock"

[[images]]
image_ref = "ghcr.io/acme/app:prod"
bearer_token = "replace-me"
```

## Layout

- `src/`: the verified library.
  - `config`: the rules of the configuration.
  - `server`: who may deploy what, and the answer.
  - `deployment`: a deployment, step by step.
  - `course`: what holds of a whole deployment.
  - `replace`: the replacement of one container, request by request.
  - `engine`: the requests to the engine and the meaning of its replies.
  - `error`, `status`, `json`, `percent`, `uri`, `text`: what these are written in.
- `app/`: the program around it, with the files, sockets and HTTP server.
- `tests/`: tests of the library.
