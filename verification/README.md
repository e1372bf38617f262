# whatsapp-bridge

A bridge between messaging channels (WhatsApp, Telegram) and a language model that
calls tools through a gateway, as the person who writes.

- `src/` is the library: the decisions that the bridge makes, with contracts that Verus
  proves. It performs no I/O. Clients build requests and read replies; a turn, a
  conversation and a retried call are values that say what is needed next.
- `app/` is the program around it: configuration, the web server, HTTP and waiting. It
  also asks the store and the gateway whether they are up.
- `tests/` run the library.

| module | what it decides |
|---|---|
| `turn` | one turn: limits, identity, link codes, instructions, what a person is told |
| the client of the model | a conversation with its rounds of tool calls; one call with its retries |
| `circuit_breaker` | when calls to the model are let through |
| `rate_limit` | how many messages a sender and a tenant may send |
| `webhook` | who may deliver to WhatsApp's webhook, and what was delivered |
| `telegram_webhook` | which Telegram updates are conversation |
| `telegram_api`, `whatsapp_api`, `store_client`, `mcp_client` | requests and what their replies mean |
| `status` | what an operator is told |
| `clock` | what time it is |
| `error`, `models`, `config`, `http`, `json`, `text` | the data, and text |

What is not proved stands in functions and declarations marked
`#[verifier::external_body]`: the clock, and calls into `hmac`, `hex`, `urlencoding`,
`chrono` and `serde_json`. The comment above each says what is claimed of it.
