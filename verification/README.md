# mailport

A small SMTP server. The library (`src/`, verified with Verus) holds its logic:

- `grammar`: the command-line grammar (a keyword, matched without regard to
  ASCII case and followed by the end of the line or white space; all white
  space after it skipped; the argument runs up to a line feed), with its
  laws.
- `parsed`: `read_command` turns a received line into a `ParsedSMTP`;
  `ParsedSMTP::do_command` applies it to the `Session` and returns the
  `Action` the connection must carry out.
- `smtp`: the session, the replies, the per-command steps (`helo`,
  `mail_from`, `rcpt_to`, `noop`, `quit`, `data`) and the session laws.
- `frame`: reading one request from a raw frame of bytes.

`app/` is the program around it: TCP sockets, tokio tasks and logging.
