# fraud_score

A fraud scoring service for card transactions, with its load balancer.

- `src/` is the library, proved with Verus. It reads requests and frames them, reads the body of a
  score request, classifies it or turns it into the vector that is searched for, prepares the
  responses, and decides for each connection what is to be done next. It does no input or output
  and holds no floating-point numbers: a number is a bit pattern, and what needs arithmetic on it
  is handed in by the caller.
- `tests/` runs the library on given values.
- `app/` holds the programs: the scoring service, the single-process server, the load balancer, a
  placeholder for the service, and two tools that hold recorded requests against the classifier and
  the fast parser. It reads, writes, measures time and works with floating-point numbers.

| Module | What it is about |
| --- | --- |
| `bytes`, `text`, `decimal`, `datetime` | byte strings, text in them, numerals, points in time |
| `head`, `request`, `handoff` | request heads and where a request ends |
| `payload`, `fast_payload` | the body of a score request, and its vector and cell |
| `classifier`, `scorer`, `api`, `scoring` | the verdict, the bucket and the response |
| `inbox`, `epoll`, `uring`, `control` | connections that are handed over |
| `serving`, `ring` | such a connection over time |
| `agreement` | a body gets one answer, whatever the path and the server |
| `edge`, `edge_client` | the single-process server and its clients |
| `lb` | clients, over time too, backends and what is told of them |
| `message` | what is written is read back |
| `stats`, `io_trace`, `config`, `checks` | figures, settings and tallies |
