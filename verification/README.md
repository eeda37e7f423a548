# spider_middleware

Middleware for a web crawler: what is done with requests before they are sent, with
responses once they came, and with errors.

- `src/` is the library. It holds the rules, and Verus proves that each function does what
  its contract says. Clocks, files and connections are not in it: what came of them is handed
  in, and what is to be done with them is handed out.
- `tests/` runs the library together with the crates that it calls.
- `app/` runs the library asynchronously: it reads files, sleeps and sends requests.

| module | what it is for |
| --- | --- |
| `referer` | the `Referer` field |
| `cookies`, `jar` | cookies, kept from responses and sent with requests |
| `retry` | requests that failed are sent again |
| `rate_limit` | how often requests are sent |
| `robots_txt` | which requests a site asks not to be sent |
| `http_cache` | responses that are kept on disk |
| `proxy` | proxies that requests are sent through in turn |
| `user_agent`, `agents` | user agents that requests take turns with |
| `request`, `meta`, `weburl`, `headers`, `error`, `middleware` | what these work on |
| `slots`, `cache`, `chance`, `encoding`, `number`, `files`, `text`, `delay` | what these are made of |
