# Flax

The rules of two small web servers, written in Verus and proved.

- **Flax** is a static file server. It serves `.html` and `.css` files from one directory, to
  `GET` and `HEAD`, and nothing else. With `--keep-alive` a connection carries a few requests, one
  after the other; otherwise it carries one.
- The **web kernel** exposes HTTP on port 80 and HTTPS on port 443, rejects every other port, and
  gives up root as soon as its ports are bound.

`src/` is the library. It decides; it performs no input or output of its own. A function that needs
the outside world takes all that is known so far and returns the next thing to do: receive more
bytes, canonicalize this path, send this response. The program in `app/` performs it, adds what it
learned and asks again.

| Module       | What it holds                                                                  |
|--------------|--------------------------------------------------------------------------------|
| `text`       | decimal numbers, white space, ASCII case                                        |
| `percent`    | percent-decoding                                                                |
| `paths`      | Unix paths as bytes: components, containment, extensions, media types           |
| `resolve`    | from a request target to a file inside the document root                        |
| `status`     | the HTTP statuses                                                               |
| `response`   | responses, byte by byte                                                         |
| `request`    | one request off a byte stream, within 8 KiB                                     |
| `connection` | a whole connection, from its first byte to its last                             |
| `admission`  | how many connections are served at once                                         |
| `config`     | the command line, the environment and the checks at start-up                    |
| `privileges` | how Flax gives up root                                                          |
| `log`        | log lines                                                                       |
| `kernel`     | the web kernel's port policy and how it gives up root                           |
| `tls`        | the web kernel's certificates and key                                           |
| `listener`   | the web kernel's TLS listener, and the chain and key it was built for           |

## What is proved

Each function states exactly what it returns for every input, but for what the outside world decides:
`log::now_rfc3339` does not say what time it is, and the functions of `tls` do not say which chains
and keys the cryptography provider accepts, only what a listener presents once they are accepted. On
top of that, the modules hold laws as public proof functions. Among them:

- a file that is opened or sent lies under the document root, is a regular file and has one of the
  two extensions (`connection::only_jailed_files_are_opened`,
  `connection::only_errors_and_jailed_files_are_sent`);
- a target that names a `..`, however it is encoded, is never looked up (`resolve::climbing_is_refused`);
- everything that is sent carries the security headers (`connection::everything_sent_is_guarded`);
- whatever is sent is `text/html` or `text/css` (`connection::only_two_media_types_are_sent`);
- every connection ends, and no request is left unanswered (`connection::every_connection_ends`,
  `connection::every_request_is_answered`);
- a connection is kept exactly as its responses announce
  (`connection::connections_are_kept_as_announced`);
- a request is settled within 8 KiB (`request::no_request_waits_past_the_limit`);
- the web kernel goes on only where root is out of reach (`kernel::root_is_out_of_reach`).

## What is taken on trust

- of the standard library: `String::push`, `String::from_utf8` and the system's clock;
- of `rustls_pemfile`: that what it finds in a PEM file depends on the file's bytes alone;
- of `rustls`: that its verdict is one on the chain and the key it was given, and that a
  configuration it builds presents these two.

The file system is not modelled: whatever it answers, the laws hold of what is done with the answer.
A path that is checked and then opened may have changed in between.
