# couscous

A small chat service in front of large language models, run either in the
process or by an Ollama server.

- `src/` is the library, verified with Verus: the configuration read from the
  environment (`env`), the open chats (`registry`), the history of chat
  identifiers kept on disk (`history`), the chat handler and the relaying of
  replies (`chat`), the step functions of model sessions (`session`), the
  model backends (`driver`) and the end-of-reply text (`signal`).
- `app/` is the program: it reads the environment and the history file,
  talks to the model server, runs the sessions and serves requests.
- `tests/` runs the library on concrete values.
