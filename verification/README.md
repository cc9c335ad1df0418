# flood

A web fuzzer: it substitutes wordlist entries for FUZZ keywords in a URL,
headers or POST data, sends the requests concurrently, and shows the
responses that pass its match and filter rules, optionally descending into
directories it discovers.

The library (`src/`) is verified with Verus. It holds the logic:

- `text`: character-level operations (trim, split, substring search,
  replace-all, decimal formatting, padding) with their mathematical models;
- `fuzz`: keyword detection and substitution;
- `wordlist`: wordlist parsing, cartesian products, extension expansion;
- `cli`: the options and the parsing of list-valued options;
- `filter`: the match/filter rules (regexes through the `regex` crate);
- `recursion`: directory detection and the breadth-first recursion queue.
  The set of paths already queued is a `Vec` kept free of duplicates by the
  queue's invariant. vstd specifies `HashSet` only for key types that obey
  its key model (integers, `bool`, boxes of them); for `String` keys that
  model could only be assumed, and this crate assumes nothing;
- `rate_limiter`: throttle arithmetic and request pacing;
- `requester`: header and credential parsing, what goes into a request,
  the HTTP method, proxies and redirect rules, user agents, body metrics;
- `output`, `colors`, `banner`: result formatting for the terminal, text and
  CSV, and the start-up banner;
- `scan`: the decisions of a scan (work items, rules, request URLs, retries,
  recursion work, quitting and resuming, output format);
- `control`: the keyboard controls of a running scan (pause, quit, threads);
- `state`: the saved state of a scan and its file name.

The application (`app/`) parses the command line, performs HTTP requests,
drives the asynchronous scan loop, and reads and writes files.
