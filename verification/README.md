# vibe_automation

Automation rules for a kanban board: when an issue is in a rule's status and the
rule's conditions hold, a workspace is created for it and linked to it.

- `src/` holds the decisions, verified with Verus. The service is a state machine:
  `AutomationService::command` says what is to be done, `AutomationService::step`
  takes in what came back.
  - `config`: the rules and how their file is loaded
  - `board`, `statuses`, `conditions`, `action`, `api`: what the rules read and send
  - `machine`: the state machine; `service`: its implementation
  - `program`: the same service as one sequential program, with the proof that the
    state machine follows it
  - `laws`: what holds of every session
  - `issue_comments`: the routes that hand comments through to the remote board
  - `ids`, `text`: identifiers and numbers as text
- `app/` carries the commands out: files, clock, HTTP, the remote client.
- `tests/` runs the library.

One item is trusted: the text that the `uuid` crate writes for an identifier
(`ids::uuid_text`).
