# web_research

A local research service that lets a coding agent use ChatGPT in a real, minimised Chrome
window: it queues prompts with human-like pacing, watches the answers, reads existing chats
without sending anything, and retires its own conversations after inactivity.

The logic of the service is a Verus-verified library (`src/`):

| Module | What it decides |
| --- | --- |
| `store` | the in-memory ledger (the program saves it to disk and restores it): idempotent submission, the ten-prompt budget, the single browser slot, cancellation, recovery, retention |
| `config`, `records` | settings and their validation, pacing and expiry windows, record types |
| `api` | who may call the local endpoint, routing, waiting, listing and transcript paging |
| `observe`, `observation` | confirming a submission, attributing the answer, stability, deadlines |
| `worker` | pacing clock, recovery preconditions, cleanup backoff and retirement steps |
| `browser`, `chat`, `capture` | Chrome launch and endpoint ownership, composer and reasoning choices, read-only capture |
| `reads`, `transcripts` | read batches and the markdown/JSON transcripts kept on disk |
| `links`, `text`, `json` | URL and chat-id rules, Unicode text helpers, JSON values |
| `laws` | properties of the whole service (budget, idempotency, no resend, single slot, backoff) |

`app/` holds the program around it: the command line, the HTTP server, SQLite persistence,
the DevTools connection and the browser scripts' I/O. The page scripts `inspect.js` and
`action.js` are expected in a `scripts/` folder next to the executable.
