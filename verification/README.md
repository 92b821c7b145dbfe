# rhymuweb-server

This is a library which can be used to serve web resources using Hypertext
Transfer Protocol (HTTP).

`src/` is the logic of the server, verified with Verus: putting requests
together from what clients send, finding the handlers for them, finishing the
responses, and keeping account of listeners and connections.  The messages
themselves are parsed and generated by `rhymuweb`.

`app/` is the server around it: the `HttpServer` type with its sockets,
channels and worker thread.  With it is an example program, `jeeves`, which
demonstrates how to use `HttpServer`, greeting any web clients with a friendly
response.

Along with a response of a resource handler the server sends

* a `Server` header,
* a `Content-Length` header, if there is no transfer encoding, as long as there
  is a body or the connection will be reused for another request, and
* the `close` token in the `Connection` header, if the client asked for the
  connection to be closed.
